//! The small frame source that feeds the page-table mapper itself: the
//! 4 KiB frames of the reserved page-table area, handed out in order and
//! never reclaimed.  The three frames holding the boot page tables are
//! skipped.

use vstd::prelude::*;

use crate::kernel_const::{
    PAGE_TABLE_END, PAGE_TABLE_P2, PAGE_TABLE_P3, PAGE_TABLE_P4, PAGE_TABLE_START,
};

verus! {

/// Size in bytes of one page-table frame.
pub const PAGE_FRAME_SIZE: u64 = 4096;

/// The page-table-area frame allocator.
pub struct PageTableAlloc {
    avail_frame: Vec<u64>,
    next: usize,
}

impl PageTableAlloc {
    /// The frames still available, in the order they will be handed out.
    pub closed spec fn spec_avail(self) -> Seq<u64> {
        self.avail_frame@
    }

    /// How many frames have been handed out so far.
    pub closed spec fn spec_next(self) -> int {
        self.next as int
    }

    /// `next` never runs past the end of the frame list.
    pub closed spec fn wf(self) -> bool {
        self.next <= self.avail_frame@.len()
    }

    /// Collects every page-table-area frame except the three that hold the
    /// boot page tables: the list is complete and ascending, frame `i`
    /// sitting three slots above the area's base.
    pub fn new() -> (r: PageTableAlloc)
        ensures
            r.wf(),
            r.spec_next() == 0,
            4096 * r.spec_avail().len() == PAGE_TABLE_END - PAGE_TABLE_START - 3 * 4096,
            forall|i: int|
                0 <= i < r.spec_avail().len() ==> #[trigger] r.spec_avail()[i] == PAGE_TABLE_START
                    + 4096 * (i + 3),
    {
        let mut frames: Vec<u64> = Vec::new();
        let mut f: u64 = PAGE_TABLE_START;
        while f < PAGE_TABLE_END
            invariant
                PAGE_TABLE_START <= f <= PAGE_TABLE_END,
                f % PAGE_FRAME_SIZE == 0,
                f >= PAGE_TABLE_START + 3 * 4096 ==> 4096 * frames@.len() == f - PAGE_TABLE_START
                    - 3 * 4096,
                f < PAGE_TABLE_START + 3 * 4096 ==> frames@.len() == 0,
                forall|i: int|
                    0 <= i < frames@.len() ==> #[trigger] frames@[i] == PAGE_TABLE_START + 4096 * (
                    i + 3),
            decreases PAGE_TABLE_END - f,
        {
            if f != PAGE_TABLE_P4 && f != PAGE_TABLE_P3 && f != PAGE_TABLE_P2 {
                proof {
                    if f < PAGE_TABLE_START + 3 * 4096 {
                        assert(f == PAGE_TABLE_START || f == PAGE_TABLE_START + 4096 || f
                            == PAGE_TABLE_START + 2 * 4096) by {
                            vstd::arithmetic::div_mod::lemma_fundamental_div_mod(
                                f - PAGE_TABLE_START,
                                4096,
                            );
                        }
                        assert(false);
                    }
                }
                frames.push(f);
            } else {
                proof {
                    assert(f < PAGE_TABLE_START + 3 * 4096);
                }
            }
            f = f + PAGE_FRAME_SIZE;
        }
        PageTableAlloc { avail_frame: frames, next: 0 }
    }

    /// Hands out the next unused page-table frame, or nothing when the
    /// area is exhausted.
    pub fn allocate_frame(&mut self) -> (r: Option<u64>)
        requires
            old(self).wf(),
        ensures
            final(self).wf(),
            final(self).spec_avail() == old(self).spec_avail(),
            r is Some <==> old(self).spec_next() < old(self).spec_avail().len(),
            r matches Some(a) ==> a == old(self).spec_avail()[old(self).spec_next()]
                && final(self).spec_next() == old(self).spec_next() + 1,
            r is None ==> *final(self) == *old(self),
    {
        if self.next >= self.avail_frame.len() {
            None
        } else {
            let a = self.avail_frame[self.next];
            self.next = self.next + 1;
            Some(a)
        }
    }
}

/// Assembles the canonical virtual address that the given level-4,
/// level-3 and level-2 page-table indices translate, plus an offset within
/// the 2 MiB page.
pub fn vaddr_from_table(l4: u32, l3: u32, l2: u32, offset: u32) -> (r: u64)
    requires
        l4 < 512,
        l3 < 512,
        l2 < 512,
        offset < 0x200000,
    ensures
        r == l4 * 0x8000000000u64 + l3 * 0x40000000u64 + l2 * 0x200000u64 + offset,
{
    let r = ((l4 as u64) << 39) | ((l3 as u64) << 30) | ((l2 as u64) << 21) | (offset as u64);
    proof {
        let a = l4 as u64;
        let b = l3 as u64;
        let c = l2 as u64;
        let d = offset as u64;
        assert((a << 39u64) | (b << 30u64) | (c << 21u64) | d == a * 0x8000000000 + b * 0x40000000
            + c * 0x200000 + d) by (bit_vector)
            requires
                a < 512,
                b < 512,
                c < 512,
                d < 0x200000,
        ;
    }
    r
}

} // verus!
