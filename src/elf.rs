//! The ELF32 loader: header and program-header parsing over the image's
//! bytes, segment loading into an address space, the user stack, and the
//! jump to ring 3.
use vstd::prelude::*;
use crate::pte::{USER, WRITE, EXEC, translate_flags};
use crate::physical::{PhysMem, MAX_WORDS};
use crate::paging::{
    dir_ok, tables_ok, tables_distinct, space_ok, pte_word, fresh_page, page_span, span, set_page,
    tables_from, keeps_data, lemma_structure_step, unstructured, frame_not_table,
    translate_flags_spec, lemma_grow_keeps, PAGES, pde, frame, mapped,
};
use crate::pte::{entry_addr, entry_present};
use crate::kernel::Kernel;
use crate::tasking::{user_mode, FakeStack};

verus! {

pub const ET_EXEC: u16 = 2;
pub const PT_NULL: u32 = 0;
pub const PT_LOAD: u32 = 1;
pub const PT_GNU_STACK: u32 = 0x6474_E551;
pub const PT_X: u32 = 1;
pub const PT_W: u32 = 2;
pub const PT_R: u32 = 4;
/// Bytes of the ELF header.
pub const HEADER_SIZE: usize = 52;
/// Bytes of a program header that are read.
pub const PH_SIZE: usize = 28;
pub const STACK_POSITION: u32 = 0x560_0000;
pub const STACK_SIZE: u32 = 8 * 1024;

pub open spec fn le16(b: Seq<u8>, off: int) -> int {
    b[off] as int + 256 * b[off + 1] as int
}

pub open spec fn le32(b: Seq<u8>, off: int) -> int {
    le16(b, off) + 65536 * le16(b, off + 2)
}

/// Little-endian `u16` at `off` (`off + 2` bytes must exist).
pub fn read_u16(b: &Vec<u8>, off: usize) -> (r: u16)
    requires
        off + 2 <= b@.len(),
    ensures
        r == le16(b@, off as int),
{
    let n = b.len();
    let v = b[off] as u32 + 256 * (b[off + 1] as u32);
    v as u16
}

/// Little-endian `u32` at `off` (`off + 4` bytes must exist).
pub fn read_u32(b: &Vec<u8>, off: usize) -> (r: u32)
    requires
        off + 4 <= b@.len(),
    ensures
        r == le32(b@, off as int),
{
    let n = b.len();
    let lo = read_u16(b, off) as u64;
    let hi = read_u16(b, off + 2) as u64;
    (lo + 65536 * hi) as u32
}

/// Type and fields of the program header at `at`.
pub fn read_program_header(b: &Vec<u8>, at: usize) -> (r: (u32, Segment))
    requires
        at + PH_SIZE <= b@.len(),
    ensures
        r.0 == le32(b@, at as int) as u32,
        r.1 == segment_at(b@, at as int),
{
    let n = b.len();
    let t = read_u32(b, at);
    let s = Segment {
        offset: read_u32(b, at + 4),
        vaddr: read_u32(b, at + 8),
        filesz: read_u32(b, at + 16),
        memsz: read_u32(b, at + 20),
        flags: read_u32(b, at + 24),
    };
    (t, s)
}

/// Whether the image starts with `7F 'E' 'L' 'F'`.
pub open spec fn has_magic(b: Seq<u8>) -> bool {
    b.len() >= 4 && b[0] == 0x7F && b[1] == 0x45 && b[2] == 0x4C && b[3] == 0x46
}

/// The magic check.
pub fn probe(image: &Vec<u8>) -> (r: bool)
    ensures
        r == has_magic(image@),
{
    image.len() >= 4 && image[0] == 0x7F && image[1] == 0x45 && image[2] == 0x4C && image[3] == 0x46
}

/// A loadable segment.
#[derive(Clone, Copy, Debug, PartialEq, Eq, Structural)]
pub struct Segment {
    pub offset: u32,
    pub vaddr: u32,
    pub filesz: u32,
    pub memsz: u32,
    pub flags: u32,
}

#[derive(Clone, Copy, Debug, PartialEq, Eq, Structural)]
pub enum ElfError {
    /// The image is not of type `ET_EXEC`.
    NotExecutable,
    /// A header or a segment's file bytes lie past the image's end.
    Truncated,
    /// A `PT_LOAD` whose file size exceeds its memory size.
    BadSegment,
    /// A program header of another type.
    Unsupported(u32),
    /// A segment reaching the recursive window, or no memory left to load it.
    NoRoom,
}

/// What the loader does with an image: segments to load in order, whether
/// the stack stays executable, and the entry point.
pub struct ElfPlan {
    pub entry: u32,
    pub segments: Vec<Segment>,
    pub exec_stack: bool,
}

pub open spec fn phoff(b: Seq<u8>) -> int { le32(b, 28) }
pub open spec fn phentsize(b: Seq<u8>) -> int { le16(b, 42) }
pub open spec fn phnum(b: Seq<u8>) -> int { le16(b, 44) }

/// Start of program header `i`.
pub open spec fn ph_at(b: Seq<u8>, i: int) -> int {
    phoff(b) + i * phentsize(b)
}

pub open spec fn segment_at(b: Seq<u8>, at: int) -> Segment {
    Segment {
        offset: le32(b, at + 4) as u32,
        vaddr: le32(b, at + 8) as u32,
        filesz: le32(b, at + 16) as u32,
        memsz: le32(b, at + 20) as u32,
        flags: le32(b, at + 24) as u32,
    }
}

/// The program-header walk over the first `n` headers: segments so far and
/// whether the stack stays executable, or the first error.
pub open spec fn scan(b: Seq<u8>, n: int) -> Result<(Seq<Segment>, bool), ElfError>
    decreases n,
{
    if n <= 0 {
        Ok((Seq::<Segment>::empty(), true))
    } else {
        match scan(b, n - 1) {
            Err(e) => Err(e),
            Ok((segs, ex)) => {
                let at = ph_at(b, n - 1);
                if at + PH_SIZE > b.len() {
                    Err(ElfError::Truncated)
                } else {
                    let t = le32(b, at) as u32;
                    let s = segment_at(b, at);
                    if t == PT_NULL {
                        Ok((segs, ex))
                    } else if t == PT_LOAD {
                        if s.filesz > s.memsz {
                            Err(ElfError::BadSegment)
                        } else if s.offset as int + s.filesz as int > b.len() {
                            Err(ElfError::Truncated)
                        } else {
                            Ok((segs.push(s), ex))
                        }
                    } else if t == PT_GNU_STACK {
                        Ok((segs, ex && s.flags % 2 == 1))
                    } else {
                        Err(ElfError::Unsupported(t))
                    }
                }
            },
        }
    }
}

/// Once the walk fails, it fails the same way for every longer prefix.
proof fn lemma_scan_err(b: Seq<u8>, i: int, n: int)
    requires
        0 <= i <= n,
        scan(b, i) is Err,
    ensures
        scan(b, n) == scan(b, i),
    decreases n - i,
{
    if i < n {
        lemma_scan_err(b, i, n - 1);
    }
}

/// Every segment the walk collects lies within the image.
proof fn lemma_scan_fits(b: Seq<u8>, n: int)
    requires
        scan(b, n) is Ok,
    ensures
        forall|j: int| 0 <= j < (scan(b, n)->Ok_0).0.len() ==>
            (#[trigger] (scan(b, n)->Ok_0).0[j]).offset as int + (scan(b, n)->Ok_0).0[j].filesz as int <= b.len(),
    decreases n,
{
    if n > 0 {
        lemma_scan_fits(b, n - 1);
    }
}

/// What `parse` returns for an image.
pub open spec fn parse_spec(b: Seq<u8>) -> Result<(u32, Seq<Segment>, bool), ElfError> {
    if b.len() < HEADER_SIZE {
        Err(ElfError::Truncated)
    } else if le16(b, 16) != ET_EXEC {
        Err(ElfError::NotExecutable)
    } else {
        match scan(b, phnum(b)) {
            Err(e) => Err(e),
            Ok((segs, ex)) => Ok((le32(b, 24) as u32, segs, ex)),
        }
    }
}

/// Reads the header and walks the program headers, changing nothing:
/// the image must be of type `ET_EXEC`; null headers are skipped, `PT_LOAD` segments collected,
/// a `PT_GNU_STACK` without `PT_X` makes the stack non-executable, and any
/// other type aborts the load.
#[verifier::rlimit(50)]
pub fn parse(image: &Vec<u8>) -> (r: Result<ElfPlan, ElfError>)
    ensures
        match (r, parse_spec(image@)) {
            (Ok(p), Ok((entry, segs, ex))) => p.entry == entry && p.segments@ == segs && p.exec_stack == ex,
            (Err(e1), Err(e2)) => e1 == e2,
            _ => false,
        },
{
    if image.len() < HEADER_SIZE {
        return Err(ElfError::Truncated);
    }
    if read_u16(image, 16) != ET_EXEC {
        return Err(ElfError::NotExecutable);
    }
    let entry = read_u32(image, 24);
    let count = read_u16(image, 44) as u64;
    let size = read_u16(image, 42) as u64;
    let base = read_u32(image, 28) as u64;
    let mut segments: Vec<Segment> = Vec::new();
    let mut exec_stack = true;
    let mut i: u64 = 0;
    while i < count
        invariant
            i <= count,
            count == phnum(image@),
            size == phentsize(image@),
            base == phoff(image@),
            base < 0x1_0000_0000,
            size < 0x10000,
            count < 0x10000,
            image@.len() >= HEADER_SIZE,
            le16(image@, 16) == ET_EXEC,
            entry == le32(image@, 24),
            scan(image@, i as int) == Ok::<(Seq<Segment>, bool), ElfError>((segments@, exec_stack)),
        decreases count - i,
    {
        assert(i * size < 0x1_0000_0000) by (nonlinear_arith)
            requires i < 0x10000, size < 0x10000;
        let at = base + i * size;
        assert(at == ph_at(image@, i as int));
        if at + (PH_SIZE as u64) > image.len() as u64 {
            proof { lemma_scan_err(image@, i as int + 1, count as int); }
            return Err(ElfError::Truncated);
        }
        let (t, s) = read_program_header(image, at as usize);
        if t == PT_NULL {
        } else if t == PT_LOAD {
            if s.filesz > s.memsz {
                proof { lemma_scan_err(image@, i as int + 1, count as int); }
                return Err(ElfError::BadSegment);
            }
            if s.offset as u64 + s.filesz as u64 > image.len() as u64 {
                proof { lemma_scan_err(image@, i as int + 1, count as int); }
                return Err(ElfError::Truncated);
            }
            segments.push(s);
        } else if t == PT_GNU_STACK {
            exec_stack = exec_stack && s.flags % 2 == 1;
        } else {
            proof { lemma_scan_err(image@, i as int + 1, count as int); }
            return Err(ElfError::Unsupported(t));
        }
        i = i + 1;
    }
    Ok(ElfPlan { entry, segments, exec_stack })
}

/// Byte `va` of a loaded segment: its file bytes, zero elsewhere.
pub open spec fn seg_byte(b: Seq<u8>, s: Segment, va: int) -> u8 {
    if s.vaddr as int <= va < s.vaddr as int + s.filesz as int {
        b[s.offset as int + (va - s.vaddr as int)]
    } else {
        0
    }
}

pub fn segment_byte(b: &Vec<u8>, s: &Segment, va: u64) -> (r: u8)
    requires
        s.offset as int + s.filesz as int <= b@.len(),
    ensures
        r == seg_byte(b@, *s, va as int),
{
    if s.vaddr as u64 <= va && va < s.vaddr as u64 + s.filesz as u64 {
        let idx: u64 = s.offset as u64 + (va - s.vaddr as u64);
        let n = b.len();
        assert(idx < n);
        b[idx as usize]
    } else {
        0
    }
}

/// The flags a segment is mapped with: USER, WRITE for `PT_W`, EXEC for
/// `PT_X`.
pub fn segment_flags(s: &Segment) -> (r: u32)
    ensures
        r < 4096,
        r == USER | (if s.flags & PT_W != 0 { WRITE } else { 0 }) | (if s.flags & PT_X != 0 { EXEC } else { 0 }),
{
    let w: u32 = if s.flags & PT_W != 0 { WRITE } else { 0 };
    let x: u32 = if s.flags & PT_X != 0 { EXEC } else { 0 };
    let r = USER | w | x;
    assert(r < 4096) by (bit_vector) requires w == 0 || w == 2, x == 0 || x == 128, r == 4u32 | w | x;
    r
}

/// Loads one segment: every page that the segment's
/// memory range meets gets a fresh frame filled with the segment's bytes
/// (file bytes, then zeros) and is mapped with the segment's flags. Other
/// pages below the recursive slot keep their mappings, and every word
/// outside the directory and its tables keeps its value.
pub fn load_segment(mem: &mut PhysMem, dir: u32, image: &Vec<u8>, s: &Segment)
    requires
        old(mem).wf(),
        space_ok(old(mem)@, dir as int),
        s.offset as int + s.filesz as int <= image@.len(),
        s.vaddr as int + s.memsz as int <= PAGES,
        old(mem)@.len() + 2048 * page_span(s.vaddr as int, s.memsz as int) <= MAX_WORDS,
    ensures
        final(mem).wf(),
        space_ok(final(mem)@, dir as int),
        old(mem)@.len() <= final(mem)@.len() <= old(mem)@.len() + 2048 * page_span(s.vaddr as int, s.memsz as int),
        forall|q: int| s.vaddr / 4096 <= q < s.vaddr / 4096 + page_span(s.vaddr as int, s.memsz as int)
            ==> #[trigger] fresh_page(final(mem)@, dir as int, q, translate_flags_spec(segment_flags_spec(*s)), old(mem)@.len() as int),
        forall|q: int| s.vaddr / 4096 <= q < s.vaddr / 4096 + page_span(s.vaddr as int, s.memsz as int)
            ==> #[trigger] page_holds(final(mem)@, dir as int, q, image@, *s),
        forall|q: int| 0 <= q < 1023 * 1024 && !(s.vaddr / 4096 <= q < s.vaddr / 4096 + page_span(s.vaddr as int, s.memsz as int))
            ==> #[trigger] pte_word(final(mem)@, dir as int, q) == pte_word(old(mem)@, dir as int, q),
        forall|q: int| s.vaddr / 4096 <= q < s.vaddr / 4096 + page_span(s.vaddr as int, s.memsz as int)
            ==> #[trigger] frame_not_table(final(mem)@, dir as int, q),
        tables_from(old(mem)@, final(mem)@, dir as int),
        keeps_data(old(mem)@, final(mem)@, dir as int),
{
    let f = translate_flags(segment_flags(s));
    let count = span(s.vaddr, s.memsz);
    let base: u64 = (s.vaddr - s.vaddr % 4096) as u64;
    let mut i: u64 = 0;
    let ghost first = s.vaddr as int / 4096;
    let ghost m0 = mem@;
    let ghost mut n: int = 0;
    while i < count
        invariant
            f == translate_flags_spec(segment_flags_spec(*s)),
            f < 4096,
            f % 2 == 1,
            count == page_span(s.vaddr as int, s.memsz as int),
            base == first * 4096,
            s.vaddr as int + s.memsz as int <= PAGES,
            first == s.vaddr as int / 4096,
            s.offset as int + s.filesz as int <= image@.len(),
            m0.len() + 2048 * page_span(s.vaddr as int, s.memsz as int) <= MAX_WORDS,
            i == n,
            0 <= n <= page_span(s.vaddr as int, s.memsz as int),
            dir % 4096 == 0,
            tables_from(m0, mem@, dir as int),
            keeps_data(m0, mem@, dir as int),
            mem.wf(),
            space_ok(m0, dir as int),
            space_ok(mem@, dir as int),
            m0.len() <= mem@.len() <= m0.len() + 2048 * n,
            forall|q: int| first <= q < first + n ==> {
                &&& #[trigger] fresh_page(mem@, dir as int, q, f, m0.len() as int)
                &&& page_holds(mem@, dir as int, q, image@, *s)
                &&& frame_not_table(mem@, dir as int, q)
            },
            forall|q: int| 0 <= q < 1023 * 1024 && !(first <= q < first + n)
                ==> #[trigger] pte_word(mem@, dir as int, q) == pte_word(m0, dir as int, q),
        decreases count - i,
    {
        let ghost mp = mem@;
        assert(mem@.len() + 2048 <= MAX_WORDS) by (nonlinear_arith)
            requires
                mem@.len() <= m0.len() + 2048 * n,
                n + 1 <= page_span(s.vaddr as int, s.memsz as int),
                m0.len() + 2048 * page_span(s.vaddr as int, s.memsz as int) <= MAX_WORDS;
        assert((first + n) * 4096 < PAGES) by (nonlinear_arith)
            requires
                n < page_span(s.vaddr as int, s.memsz as int),
                page_span(s.vaddr as int, s.memsz as int) == (s.vaddr as int % 4096 + s.memsz as int + 4095) / 4096,
                first == s.vaddr as int / 4096,
                s.vaddr as int + s.memsz as int <= PAGES,
                PAGES % 4096 == 0;
        let phys = mem.allocate_frame();
        let page = base + i * 4096;
        let mut w: u32 = 0;
        while w < 1024
            invariant
                w <= 1024,
                mem.wf(),
                phys as int == mp.len() * 4,
                mem@.len() == mp.len() + 1024,
                page + 4096 <= 0x1_0000_0000,
                page == (first + n) * 4096,
                s.offset as int + s.filesz as int <= image@.len(),
                forall|i: int| 0 <= i < mp.len() ==> #[trigger] mem@[i] == mp[i],
                forall|i: int| 0 <= i < w ==> #[trigger] mem@[phys / 4 + i] == seg_word(image@, *s, page + 4 * i),
            decreases 1024 - w,
        {
            let va = page + 4 * (w as u64);
            let b0 = segment_byte(image, s, va) as u32;
            let b1 = segment_byte(image, s, va + 1) as u32;
            let b2 = segment_byte(image, s, va + 2) as u32;
            let b3 = segment_byte(image, s, va + 3) as u32;
            let word = b0 + 256 * b1 + 65536 * b2 + 16777216 * b3;
            assert((phys + 4 * w) / 4 == phys / 4 + w);
            mem.write(phys + 4 * w, word);
            w = w + 1;
        }
        proof {
            lemma_grow_keeps(mp, mem@, dir as int);
        }
        let ghost ma = mem@;
        let c = page as u32;
        assert(c as int / 4096 == first + n) by (nonlinear_arith)
            requires c as int == (first + n) * 4096;
        set_page(mem, dir, c, phys, f);
        proof {
            assert(first + n < 1023 * 1024) by (nonlinear_arith)
                requires c as int / 4096 == first + n, c < PAGES;
            assert forall|q: int| first <= q < first + n implies #[trigger] fresh_page(ma, dir as int, q, f, m0.len() as int) by {
                assert(fresh_page(mp, dir as int, q, f, m0.len() as int));
                assert(pte_word(ma, dir as int, q) == pte_word(mp, dir as int, q));
            }
            assert forall|q: int| 0 <= q < 1023 * 1024 && !(first <= q < first + n)
                implies #[trigger] pte_word(ma, dir as int, q) == pte_word(m0, dir as int, q) by {
                assert(pte_word(ma, dir as int, q) == pte_word(mp, dir as int, q));
            }
            crate::paging::lemma_map_step(m0, ma, mem@, dir as int, first, n, phys, f);
            assert forall|k: int| 0 <= k < 1024 implies #[trigger] pde(ma, dir as int, k) == pde(mp, dir as int, k) by {}
            assert(mp.len() % 1024 == 0);
            assert(dir_ok(m0, dir as int));
            lemma_load_step(m0, mp, ma, mem@, dir as int, first, n, phys as int, f, image@, *s);
            lemma_structure_step(m0, mp, ma, mem@, dir as int, (c as int) / 4096 / 1024, (c as int / 4096) % 1024);
            assert(crate::paging::recursive(mem@, dir as int));
            assert forall|p: int| crate::paging::USER_FIRST_PAGE <= p < crate::paging::USER_END_PAGE
                && #[trigger] crate::paging::mapped(mem@, dir as int, p)
                implies crate::paging::frame(mem@, dir as int, p) / 4 + 1024 <= mem@.len() by {
                if first <= p < first + n + 1 {
                    assert(fresh_page(mem@, dir as int, p, f, m0.len() as int));
                } else {
                    assert(pte_word(mem@, dir as int, p) == pte_word(m0, dir as int, p));
                    assert(crate::paging::mapped(m0, dir as int, p));
                }
            }
        }
        i = i + 1;
        proof { n = n + 1; }
    }
    proof {
        assert forall|q: int| first <= q < first + page_span(s.vaddr as int, s.memsz as int)
            implies #[trigger] page_holds(mem@, dir as int, q, image@, *s) by {
            assert(fresh_page(mem@, dir as int, q, f, m0.len() as int));
        }
        assert forall|q: int| first <= q < first + page_span(s.vaddr as int, s.memsz as int)
            implies #[trigger] frame_not_table(mem@, dir as int, q) by {
            assert(fresh_page(mem@, dir as int, q, f, m0.len() as int));
        }
    }
}

/// Whether segment `s` meets page `q`.
pub open spec fn covers(s: Segment, q: int) -> bool {
    s.vaddr as int / 4096 <= q < s.vaddr as int / 4096 + page_span(s.vaddr as int, s.memsz as int)
}

/// Index of the last of the first `n` segments that meets page `q`, or -1.
pub open spec fn last_cover(segs: Seq<Segment>, n: int, q: int) -> int
    decreases n,
{
    if n <= 0 {
        -1
    } else if covers(segs[n - 1], q) {
        n - 1
    } else {
        last_cover(segs, n - 1, q)
    }
}

proof fn lemma_last_cover_range(segs: Seq<Segment>, n: int, q: int)
    requires
        0 <= n,
    ensures
        -1 <= last_cover(segs, n, q) < n,
        last_cover(segs, n, q) >= 0 ==> covers(segs[last_cover(segs, n, q)], q),
    decreases n,
{
    if n > 0 {
        lemma_last_cover_range(segs, n - 1, q);
    }
}

/// Pages the first `n` segments meet, counted per segment.
pub open spec fn total_span(segs: Seq<Segment>, n: int) -> int
    decreases n,
{
    if n <= 0 { 0 } else { total_span(segs, n - 1) + page_span(segs[n - 1].vaddr as int, segs[n - 1].memsz as int) }
}

/// Every segment ends below the recursive window, and memory of `len`
/// words has room for every segment's pages and the stack, each page
/// counted with a possible new table.
pub open spec fn exec_fits(len: int, segs: Seq<Segment>) -> bool {
    &&& forall|j: int| 0 <= j < segs.len() ==> (#[trigger] segs[j]).vaddr as int + segs[j].memsz as int <= PAGES
    &&& len + 2048 * total_span(segs, segs.len() as int) + 4096 <= MAX_WORDS
}

/// Page `q` is loaded from segment `s`: mapped with its flags onto a frame
/// at or above `lo` that is no table, holding the segment's bytes.
pub open spec fn loaded(m: Seq<u32>, dir: int, q: int, b: Seq<u8>, s: Segment, lo: int) -> bool {
    &&& fresh_page(m, dir, q, translate_flags_spec(segment_flags_spec(s)), lo)
    &&& page_holds(m, dir, q, b, s)
    &&& frame_not_table(m, dir, q)
}

proof fn lemma_same_frame(a: int, c: int, w: int)
    requires
        a % 4096 == 0,
        c % 4096 == 0,
        a / 4 <= w < a / 4 + 1024,
        c / 4 <= w < c / 4 + 1024,
    ensures
        a == c,
{
}

/// A loaded page stays loaded across a step that keeps its entry, adds only
/// fresh tables and keeps every word outside the directory and tables.
proof fn lemma_loaded_survives(m1: Seq<u32>, m2: Seq<u32>, d: int, q: int, b: Seq<u8>, s: Segment, lo: int)
    requires
        dir_ok(m1, d),
        d / 4 + 1024 <= lo,
        loaded(m1, d, q, b, s, lo),
        pte_word(m2, d, q) == pte_word(m1, d, q),
        m1.len() <= m2.len(),
        tables_from(m1, m2, d),
        keeps_data(m1, m2, d),
    ensures
        loaded(m2, d, q, b, s, lo),
{
    let f = frame(m1, d, q);
    assert(frame(m2, d, q) == f);
    assert(f % 4096 == 0);
    assert forall|w: int| 0 <= w < 1024 implies #[trigger] m2[frame(m2, d, q) / 4 + w] == seg_word(b, s, q * 4096 + 4 * w) by {
        let x = f / 4 + w;
        assert(m1[x] == seg_word(b, s, q * 4096 + 4 * w));
        assert(unstructured(m1, d, x)) by {
            assert forall|k: int| 0 <= k < 1023 && #[trigger] entry_present(pde(m1, d, k))
                implies !(entry_addr(pde(m1, d, k)) / 4 <= x < entry_addr(pde(m1, d, k)) / 4 + 1024) by {
                let t = entry_addr(pde(m1, d, k));
                assert(t != f);
                assert(t % 4096 == 0);
                if t / 4 <= x < t / 4 + 1024 {
                    lemma_same_frame(t, f, x);
                }
            }
        }
    }
    assert forall|k: int| 0 <= k < 1023 && #[trigger] entry_present(pde(m2, d, k))
        implies entry_addr(pde(m2, d, k)) != frame(m2, d, q) by {
        if entry_present(pde(m1, d, k)) && entry_addr(pde(m2, d, k)) == entry_addr(pde(m1, d, k)) {
        } else {
            assert(entry_addr(pde(m2, d, k)) / 4 >= m1.len());
        }
    }
}

/// Whether every segment fits and memory has room for all of them and the
/// stack.
fn segments_fit(segs: &Vec<Segment>, len: usize) -> (r: bool)
    requires
        len <= MAX_WORDS,
    ensures
        r == exec_fits(len as int, segs@),
{
    let mut total: u64 = 0;
    let mut i: usize = 0;
    while i < segs.len()
        invariant
            i <= segs@.len(),
            total == total_span(segs@, i as int),
            total <= MAX_WORDS,
            forall|j: int| 0 <= j < i ==> (#[trigger] segs@[j]).vaddr as int + segs@[j].memsz as int <= PAGES,
        decreases segs@.len() - i,
    {
        let s = segs[i];
        if s.vaddr as u64 + s.memsz as u64 > PAGES as u64 {
            return false;
        }
        total = total + span(s.vaddr, s.memsz);
        i = i + 1;
        if total > MAX_WORDS as u64 {
            proof { lemma_total_grows(segs@, i as int, segs@.len() as int); }
            return false;
        }
    }
    (len as u64) + 2048 * total + 4096 <= MAX_WORDS as u64
}

proof fn lemma_total_grows(segs: Seq<Segment>, i: int, n: int)
    requires
        0 <= i <= n,
    ensures
        total_span(segs, i) <= total_span(segs, n),
    decreases n - i,
{
    if i < n {
        lemma_total_grows(segs, i, n - 1);
        assert(page_span(segs[n - 1].vaddr as int, segs[n - 1].memsz as int) >= 0);
    }
}

/// Loads an executable into the running task's address space and enters
/// it in ring 3: the image is parsed, every `PT_LOAD` segment
/// loaded in order (a later segment's page replaces an earlier one's), the
/// user stack mapped at `STACK_POSITION` (executable unless a
/// `PT_GNU_STACK` header says otherwise), then `user_mode` jumps to the
/// entry point with the stack's top. Returns the frame `iret` used. It
/// fails with `NoRoom`, before changing anything, exactly when a segment
/// reaches the recursive window or memory lacks room for all pages.
pub fn exec(k: &mut Kernel, image: &Vec<u8>) -> (r: Result<FakeStack, ElfError>)
    requires
        old(k).ready(),
    ensures
        parse_spec(image@) is Err ==> r == Err::<FakeStack, ElfError>(parse_spec(image@)->Err_0)
            && final(k).mem == old(k).mem && final(k).cpu == old(k).cpu,
        parse_spec(image@) is Ok ==> ({
            let (entry, segs, ex) = parse_spec(image@)->Ok_0;
            &&& !exec_fits(old(k).mem@.len() as int, segs) <==> r == Err::<FakeStack, ElfError>(ElfError::NoRoom)
            &&& !exec_fits(old(k).mem@.len() as int, segs) ==> final(k).mem == old(k).mem && final(k).cpu == old(k).cpu
            &&& exec_fits(old(k).mem@.len() as int, segs) <==> r is Ok
        }),
        r is Ok ==> parse_spec(image@) is Ok && ({
            let (entry, segs, ex) = parse_spec(image@)->Ok_0;
            let pd = old(k).sched.current.pd as int;
            let fl = translate_flags_spec(USER | WRITE | (if ex { EXEC } else { 0 }));
            &&& final(k).cpu.eip == entry
            &&& final(k).cpu.esp == STACK_POSITION + STACK_SIZE
            &&& final(k).cpu.cs == crate::gdt::USER_CODE_SELECTOR
            &&& final(k).cpu.ss == crate::gdt::USER_DATA_SELECTOR
            &&& final(k).cpu.ds == crate::gdt::USER_DATA_SELECTOR
            &&& final(k).cpu.cr3 == old(k).cpu.cr3
            &&& forall|q: int| STACK_POSITION / 4096 <= q < (STACK_POSITION + STACK_SIZE) / 4096
                ==> #[trigger] fresh_page(final(k).mem@, pd, q, fl, 0)
            &&& forall|q: int| !(STACK_POSITION / 4096 <= q < (STACK_POSITION + STACK_SIZE) / 4096)
                && #[trigger] last_cover(segs, segs.len() as int, q) >= 0
                ==> loaded(final(k).mem@, pd, q, image@, segs[last_cover(segs, segs.len() as int, q)], 0)
            &&& space_ok(final(k).mem@, pd)
        }),
        final(k).sched.current == old(k).sched.current,
{
    let plan = match parse(image) {
        Err(e) => {
            assert(parse_spec(image@) is Err);
            return Err(e);
        },
        Ok(p) => p,
    };
    let ghost spec_plan = parse_spec(image@)->Ok_0;
    proof {
        assert(parse_spec(image@) is Ok);
        lemma_scan_fits(image@, phnum(image@));
        assert(plan.segments@ == spec_plan.1);
    }
    if !segments_fit(&plan.segments, k.mem.words.len()) {
        return Err(ElfError::NoRoom);
    }
    let dir = k.sched.current.pd;
    let ghost me = k.mem@;
    let ghost segs = plan.segments@;
    let mut i: usize = 0;
    while i < plan.segments.len()
        invariant
            k.mem.wf(),
            space_ok(k.mem@, dir as int),
            dir == old(k).sched.current.pd,
            parse_spec(image@) is Ok,
            spec_plan == parse_spec(image@)->Ok_0,
            segs == spec_plan.1,
            segs == plan.segments@,
            plan.entry == spec_plan.0,
            plan.exec_stack == spec_plan.2,
            k.sched.current == old(k).sched.current,
            k.cpu == old(k).cpu,
            me == old(k).mem@,
            exec_fits(me.len() as int, segs),
            me.len() <= k.mem@.len() <= me.len() + 2048 * total_span(segs, i as int),
            dir_ok(me, dir as int),
            i <= segs.len(),
            forall|j: int| 0 <= j < segs.len() ==>
                (#[trigger] segs[j]).offset as int + segs[j].filesz as int <= image@.len(),
            forall|q: int| #[trigger] last_cover(segs, i as int, q) >= 0
                ==> loaded(k.mem@, dir as int, q, image@, segs[last_cover(segs, i as int, q)], me.len() as int),
        decreases plan.segments@.len() - i,
    {
        let s = plan.segments[i];
        let ghost mi = k.mem@;
        proof {
            lemma_total_grows(segs, i as int + 1, segs.len() as int);
            assert(s.vaddr as int + s.memsz as int <= PAGES);
        }
        load_segment(&mut k.mem, dir, image, &s);
        proof {
            let m2 = k.mem@;
            assert forall|q: int| #[trigger] last_cover(segs, i as int + 1, q) >= 0
                implies loaded(m2, dir as int, q, image@, segs[last_cover(segs, i as int + 1, q)], me.len() as int) by {
                if covers(s, q) {
                    assert(last_cover(segs, i as int + 1, q) == i);
                    assert(fresh_page(m2, dir as int, q, translate_flags_spec(segment_flags_spec(s)), mi.len() as int));
                    assert(page_holds(m2, dir as int, q, image@, s));
                    assert(frame_not_table(m2, dir as int, q));
                } else {
                    assert(last_cover(segs, i as int + 1, q) == last_cover(segs, i as int, q));
                    let j = last_cover(segs, i as int, q);
                    lemma_last_cover_range(segs, i as int, q);
                    assert(q < 1023 * 1024) by {
                        assert(segs[j].vaddr as int + segs[j].memsz as int <= PAGES);
                        assert(page_span(segs[j].vaddr as int, segs[j].memsz as int)
                            == (segs[j].vaddr as int % 4096 + segs[j].memsz as int + 4095) / 4096);
                    }
                    assert(pte_word(m2, dir as int, q) == pte_word(mi, dir as int, q));
                    lemma_loaded_survives(mi, m2, dir as int, q, image@, segs[j], me.len() as int);
                }
            }
        }
        i = i + 1;
    }
    let x: u32 = if plan.exec_stack { EXEC } else { 0 };
    let flags = USER | WRITE | x;
    assert(flags < 4096) by (bit_vector) requires x == 0 || x == 128, flags == 4u32 | 2u32 | x;
    assert(page_span(STACK_POSITION as int, STACK_SIZE as int) == 2);
    let ghost before = k.mem@;
    crate::paging::map(&mut k.mem, dir, STACK_POSITION, STACK_SIZE, flags);
    proof {
        let m2 = k.mem@;
        assert(flags == USER | WRITE | (if spec_plan.2 { EXEC } else { 0 }));
        assert forall|q: int| STACK_POSITION / 4096 <= q < (STACK_POSITION + STACK_SIZE) / 4096
            implies #[trigger] fresh_page(m2, dir as int, q, translate_flags_spec(flags), 0) by {
            assert(fresh_page(m2, dir as int, q, translate_flags_spec(flags), before.len() as int));
        }
        assert forall|q: int| !(STACK_POSITION / 4096 <= q < (STACK_POSITION + STACK_SIZE) / 4096)
            && #[trigger] last_cover(segs, segs.len() as int, q) >= 0
            implies loaded(m2, dir as int, q, image@, segs[last_cover(segs, segs.len() as int, q)], 0) by {
            let j = last_cover(segs, segs.len() as int, q);
            lemma_last_cover_range(segs, segs.len() as int, q);
            assert(q < 1023 * 1024) by {
                assert(segs[j].vaddr as int + segs[j].memsz as int <= PAGES);
                assert(page_span(segs[j].vaddr as int, segs[j].memsz as int)
                    == (segs[j].vaddr as int % 4096 + segs[j].memsz as int + 4095) / 4096);
            }
            assert(pte_word(m2, dir as int, q) == pte_word(before, dir as int, q));
            assert(loaded(before, dir as int, q, image@, segs[j], me.len() as int));
            lemma_loaded_survives(before, m2, dir as int, q, image@, segs[j], me.len() as int);
        }
    }
    let fake = user_mode(&mut k.cpu, plan.entry, STACK_POSITION + STACK_SIZE);
    Ok(fake)
}

/// The little-endian word of the segment's bytes at `va`.
pub open spec fn seg_word(b: Seq<u8>, s: Segment, va: int) -> u32 {
    (seg_byte(b, s, va) as int + 256 * seg_byte(b, s, va + 1) as int
        + 65536 * seg_byte(b, s, va + 2) as int + 16777216 * seg_byte(b, s, va + 3) as int) as u32
}

/// Page `q` holds the segment's bytes for its addresses.
pub open spec fn page_holds(m: Seq<u32>, dir: int, q: int, b: Seq<u8>, s: Segment) -> bool {
    forall|w: int| 0 <= w < 1024 ==> #[trigger] m[frame(m, dir, q) / 4 + w] == seg_word(b, s, q * 4096 + 4 * w)
}


/// One loaded page keeps the contents of the earlier ones, holds its own,
/// and no frame becomes a table.
#[verifier::rlimit(80)]
proof fn lemma_load_step(
    m0: Seq<u32>, mp: Seq<u32>, ma: Seq<u32>, m2: Seq<u32>, d: int, first: int, n: int,
    phys: int, f: u32, b: Seq<u8>, s: Segment,
)
    requires
        dir_ok(m0, d),
        0 <= first,
        0 <= n,
        first + n < 1023 * 1024,
        f % 2 == 1,
        f < 4096,
        phys == mp.len() * 4,
        mp.len() % 1024 == 0,
        m0.len() <= mp.len(),
        ma.len() == mp.len() + 1024,
        tables_ok(mp, d),
        dir_ok(mp, d),
        forall|k: int| 0 <= k < 1024 ==> #[trigger] pde(ma, d, k) == pde(mp, d, k),
        forall|q: int| first <= q < first + n ==> {
            &&& #[trigger] fresh_page(mp, d, q, f, m0.len() as int)
            &&& page_holds(mp, d, q, b, s)
            &&& frame_not_table(mp, d, q)
        },
        forall|w: int| 0 <= w < mp.len() ==> #[trigger] ma[w] == mp[w],
        forall|w: int| 0 <= w < 1024 ==> #[trigger] ma[phys / 4 + w] == seg_word(b, s, (first + n) * 4096 + 4 * w),
        forall|q: int| 0 <= q < 1023 * 1024 ==> #[trigger] pte_word(ma, d, q) == pte_word(mp, d, q),
        // set_page
        m2.len() >= ma.len(),
        tables_distinct(m2, d),
        pte_word(m2, d, first + n) == phys + f,
        forall|q: int| 0 <= q < 1023 * 1024 && q != first + n ==> #[trigger] pte_word(m2, d, q) == pte_word(ma, d, q),
        ({
            let k = (first + n) / 1024;
            let t = entry_addr(pde(m2, d, k));
            &&& entry_present(pde(m2, d, k))
            &&& t % 4096 == 0
            &&& (entry_present(pde(ma, d, k)) ==> t == entry_addr(pde(ma, d, k)))
            &&& (!entry_present(pde(ma, d, k)) ==> t / 4 >= ma.len())
            &&& forall|w: int| 0 <= w < ma.len() && w != d / 4 + k && w != t / 4 + (first + n) % 1024
                ==> #[trigger] m2[w] == ma[w]
        }),
    ensures
        forall|q: int| first <= q < first + n + 1 ==> {
            &&& #[trigger] fresh_page(m2, d, q, f, m0.len() as int)
            &&& page_holds(m2, d, q, b, s)
            &&& frame_not_table(m2, d, q)
        },
{
    let p = first + n;
    let k = p / 1024;
    let j = p % 1024;
    let t = entry_addr(pde(m2, d, k));
    assert(t != d);
    assert forall|kk: int| 0 <= kk < 1024 && kk != k implies #[trigger] pde(m2, d, kk) == pde(ma, d, kk) by {
        crate::paging::lemma_frames_disjoint(t, d, j, kk);
    }
    // Tables of m2 are those of mp, or one new past `ma`.
    assert forall|kk: int| 0 <= kk < 1023 && #[trigger] entry_present(pde(m2, d, kk))
        implies entry_addr(pde(m2, d, kk)) / 4 + 1024 <= mp.len() || entry_addr(pde(m2, d, kk)) / 4 >= ma.len() by {
        if kk != k || entry_present(pde(ma, d, k)) {
            assert(pde(ma, d, kk) == pde(mp, d, kk));
            assert(entry_present(pde(mp, d, kk)));
        }
    }
    assert((phys + f) % 4096 == f as int);
    assert(frame(m2, d, p) == phys);
    assert forall|q: int| first <= q < first + n + 1 implies {
        &&& #[trigger] fresh_page(m2, d, q, f, m0.len() as int)
        &&& page_holds(m2, d, q, b, s)
        &&& frame_not_table(m2, d, q)
    } by {
        if q == p {
            assert(t != phys) by {
                if entry_present(pde(ma, d, k)) {
                    assert(entry_present(pde(mp, d, k)));
                }
            }
            assert forall|w: int| 0 <= w < 1024 implies #[trigger] m2[frame(m2, d, q) / 4 + w] == seg_word(b, s, q * 4096 + 4 * w) by {
                crate::paging::lemma_frames_disjoint(phys, t, w, j);
                crate::paging::lemma_frames_disjoint(phys, d, w, k);
                assert(m2[phys / 4 + w] == ma[phys / 4 + w]);
            }
            assert forall|kk: int| 0 <= kk < 1023 && #[trigger] entry_present(pde(m2, d, kk))
                implies entry_addr(pde(m2, d, kk)) != frame(m2, d, q) by {
            }
        } else {
            assert(fresh_page(mp, d, q, f, m0.len() as int));
            assert(page_holds(mp, d, q, b, s));
            assert(frame_not_table(mp, d, q));
            assert(pte_word(m2, d, q) == pte_word(mp, d, q));
            let fq = frame(mp, d, q);
            assert(frame(m2, d, q) == fq);
            assert(fq % 4096 == 0);
            assert(fq != t) by {
                if entry_present(pde(ma, d, k)) {
                    assert(entry_present(pde(mp, d, k)));
                }
            }
            assert forall|w: int| 0 <= w < 1024 implies #[trigger] m2[frame(m2, d, q) / 4 + w] == seg_word(b, s, q * 4096 + 4 * w) by {
                crate::paging::lemma_frames_disjoint(fq, t, w, j);
                crate::paging::lemma_frames_disjoint(fq, d, w, k);
                assert(mp[fq / 4 + w] == seg_word(b, s, q * 4096 + 4 * w));
                assert(ma[fq / 4 + w] == mp[fq / 4 + w]);
            }
            assert forall|kk: int| 0 <= kk < 1023 && #[trigger] entry_present(pde(m2, d, kk))
                implies entry_addr(pde(m2, d, kk)) != frame(m2, d, q) by {
                if kk != k || entry_present(pde(ma, d, k)) {
                    assert(pde(ma, d, kk) == pde(mp, d, kk));
                    assert(entry_present(pde(mp, d, kk)));
                }
            }
        }
    }
}

/// `segment_flags` as a spec function.
pub open spec fn segment_flags_spec(s: Segment) -> u32 {
    USER | (if s.flags & PT_W != 0 { WRITE } else { 0 }) | (if s.flags & PT_X != 0 { EXEC } else { 0 })
}

} // verus!
