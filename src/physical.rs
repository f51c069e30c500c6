//! Physical memory and the frame allocator. Memory is a sequence of 32-bit
//! words; frame `f` covers words `f * 1024 .. f * 1024 + 1024`. Frames are
//! handed out by a monotonic bump at the end of what exists, so a freshly
//! allocated frame is always zero and disjoint from every earlier one.
use vstd::prelude::*;

verus! {

/// Words in a 4 GiB physical address space.
pub const MAX_WORDS: usize = 0x4000_0000;
pub const FRAME_WORDS: usize = 1024;

pub struct PhysMem {
    pub words: Vec<u32>,
}

impl View for PhysMem {
    type V = Seq<u32>;

    open spec fn view(&self) -> Seq<u32> {
        self.words@
    }
}

/// `kernel_end` rounded up to a frame boundary.
pub open spec fn align_up(a: int) -> int {
    if a % 4096 == 0 { a } else { a - a % 4096 + 4096 }
}

impl PhysMem {
    pub open spec fn wf(&self) -> bool {
        &&& self@.len() % 1024 == 0
        &&& self@.len() <= MAX_WORDS
    }

    /// Physical memory holding the kernel image up to `kernel_end`; the
    /// first free frame is the one just past it.
    pub fn new(kernel_end: u32) -> (r: PhysMem)
        requires
            kernel_end <= 0xFFFF_F000,
        ensures
            r.wf(),
            r@.len() * 4 == align_up(kernel_end as int),
            forall|w: int| 0 <= w < r@.len() ==> r@[w] == 0,
    {
        let n: usize = if kernel_end % 4096 == 0 {
            (kernel_end / 4) as usize
        } else {
            ((kernel_end - kernel_end % 4096 + 4096) / 4) as usize
        };
        let mut words: Vec<u32> = Vec::new();
        let mut i: usize = 0;
        while i < n
            invariant
                i <= n,
                words@.len() == i,
                forall|w: int| 0 <= w < i ==> words@[w] == 0,
            decreases n - i,
        {
            words.push(0);
            i = i + 1;
        }
        PhysMem { words }
    }

    /// Number of frames handed out so far (the next frame's number).
    pub fn frame_count(&self) -> (r: usize)
        requires
            self.wf(),
        ensures
            r * 1024 == self@.len(),
    {
        self.words.len() / FRAME_WORDS
    }

    /// Hands out the next 4 KiB frame, zero-filled.
    pub fn allocate_frame(&mut self) -> (r: u32)
        requires
            old(self).wf(),
            old(self)@.len() + 1024 <= MAX_WORDS,
        ensures
            final(self).wf(),
            r as int == old(self)@.len() * 4,
            r % 4096 == 0,
            final(self)@.len() == old(self)@.len() + 1024,
            forall|w: int| 0 <= w < old(self)@.len() ==> #[trigger] final(self)@[w] == old(self)@[w],
            forall|w: int| old(self)@.len() <= w < final(self)@.len() ==> #[trigger] final(self)@[w] == 0,
    {
        let r = (self.words.len() * 4) as u32;
        let start = self.words.len();
        let mut i: usize = 0;
        while i < FRAME_WORDS
            invariant
                i <= FRAME_WORDS,
                start == old(self)@.len(),
                self@.len() == start + i,
                forall|w: int| 0 <= w < start ==> #[trigger] self@[w] == old(self)@[w],
                forall|w: int| start <= w < start + i ==> #[trigger] self@[w] == 0,
            decreases FRAME_WORDS - i,
        {
            self.words.push(0);
            i = i + 1;
        }
        r
    }

    /// The word at physical address `pa`.
    pub fn read(&self, pa: u32) -> (r: u32)
        requires
            pa % 4 == 0,
            (pa / 4) < self@.len(),
        ensures
            r == self@[(pa / 4) as int],
    {
        self.words[(pa / 4) as usize]
    }

    /// Stores `v` at physical address `pa`.
    pub fn write(&mut self, pa: u32, v: u32)
        requires
            pa % 4 == 0,
            (pa / 4) < old(self)@.len(),
        ensures
            final(self)@ == old(self)@.update((pa / 4) as int, v),
    {
        self.words.set((pa / 4) as usize, v);
    }

    /// Copies the 4 KiB frame at `src` onto the frame at `dst`.
    pub fn copy_page(&mut self, src: u32, dst: u32)
        requires
            src % 4096 == 0,
            dst % 4096 == 0,
            src / 4 + 1024 <= old(self)@.len(),
            dst / 4 + 1024 <= old(self)@.len(),
            src != dst,
        ensures
            final(self)@.len() == old(self)@.len(),
            forall|w: int| 0 <= w < 1024 ==> #[trigger] final(self)@[dst / 4 + w] == old(self)@[src / 4 + w],
            forall|w: int| 0 <= w < old(self)@.len() && !(dst / 4 <= w < dst / 4 + 1024)
                ==> #[trigger] final(self)@[w] == old(self)@[w],
    {
        let s = (src / 4) as usize;
        let d = (dst / 4) as usize;
        let mut i: usize = 0;
        while i < FRAME_WORDS
            invariant
                i <= FRAME_WORDS,
                s == src / 4,
                d == dst / 4,
                s % 1024 == 0,
                d % 1024 == 0,
                s != d,
                s + 1024 <= old(self)@.len(),
                d + 1024 <= old(self)@.len(),
                self@.len() == old(self)@.len(),
                forall|w: int| 0 <= w < i ==> #[trigger] self@[d + w] == old(self)@[s + w],
                forall|w: int| 0 <= w < old(self)@.len() && !(d <= w < d + i)
                    ==> #[trigger] self@[w] == old(self)@[w],
            decreases FRAME_WORDS - i,
        {
            let v = self.words[s + i];
            self.words.set(d + i, v);
            i = i + 1;
        }
    }
}

} // verus!
