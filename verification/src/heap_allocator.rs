//! The heap allocator: an address-ordered free list of byte ranges plus the
//! coalescing bitmask.  A raw-memory kernel writes the free-list headers and
//! a backward boundary tag into the free memory itself; here the list is
//! held as an address-ordered sequence of `(address, size)` blocks in owned
//! storage, so every pointer step of the intrusive design becomes an index
//! step whose safety is proved.  The bitmask still makes the merge decision in
//! constant time, and the well-formedness invariant ties the two views
//! together: a granule's bit is clear exactly when the granule lies in some
//! block of the free list.

use vstd::arithmetic::div_mod::lemma_fundamental_div_mod;
use vstd::pervasive::VecAdditionalExecFns;
use vstd::prelude::*;

use crate::bitmask::BitMask;
use crate::kernel_const::{
    HEAP_BLOCK_SIZE_BW, HEAP_EXPANSION_BYTES, HEAP_EXPANSION_GRANULES, HEAP_MASK_MAX_BITS,
    HEAP_START_ADDR,
};

verus! {

/// Errors of the memory subsystem.
#[derive(Clone, Copy, Debug, PartialEq, Eq, Structural)]
pub enum AllocError {
    /// The physical frame allocator has no run left.
    FrameExhausted,
    /// The page-table mapper rejected a mapping.
    MapFailed,
    /// The page-table mapper rejected an unmapping.
    UnmapFailed,
    /// Growing the heap failed, propagated from one of the above.
    HeapExhausted,
}

/// One free byte range of the heap.  In raw memory this header lives at the
/// start of the range itself and carries its list links; here the links are
/// the order of the allocator's block sequence, so the header is just the
/// range's address and size.
#[derive(Clone, Copy, Debug, PartialEq, Eq, Structural)]
pub struct FreeBlock {
    /// First byte of the free range.
    pub addr: u64,
    /// Length of the free range in bytes.
    pub size: u64,
}

impl FreeBlock {
    /// First byte of the free range.
    pub fn start_addr(&self) -> (r: u64)
        ensures
            r == self.addr,
    {
        self.addr
    }

    /// One past the last byte of the free range.
    pub fn end_addr(&self) -> (r: u64)
        requires
            self.addr + self.size <= u64::MAX,
        ensures
            r == self.addr + self.size,
    {
        self.addr + self.size
    }
}

/// First byte of granule `g` of the heap.
pub open spec fn gran_addr(g: int) -> int {
    HEAP_START_ADDR + 64 * g
}

/// The granule index of heap address `addr`: how many whole granules lie
/// between the heap base and `addr`.
fn granule_of(addr: u64) -> (g: u64)
    requires
        HEAP_START_ADDR <= addr,
    ensures
        g == (addr - HEAP_START_ADDR) as int / 64,
        (addr - HEAP_START_ADDR) % 64 == 0 ==> gran_addr(g as int) == addr,
{
    let off = addr - HEAP_START_ADDR;
    proof {
        assert(off >> 6u64 == off / 64) by (bit_vector);
        lemma_fundamental_div_mod(off as int, 64);
    }
    off >> 6
}

/// Granule `g` lies inside block `b`.
pub open spec fn covers(b: FreeBlock, g: int) -> bool {
    b.addr <= gran_addr(g) < b.addr + b.size
}

/// What a successful allocation of `size` bytes at address `a` does to the
/// allocator's abstract state: the returned range was wholly free before and
/// is exactly what stops being free.
pub open spec fn alloc_step(pre: HeapAllocator, post: HeapAllocator, a: u64, size: u64) -> bool {
    &&& post.spec_size() == pre.spec_size()
    &&& post.granule_count() == pre.granule_count()
    &&& a >= HEAP_START_ADDR
    &&& (a - HEAP_START_ADDR) % 64 == 0
    &&& a + size <= HEAP_START_ADDR + pre.spec_size()
    &&& forall|g: int| a <= gran_addr(g) < a + size ==> pre.free_granule(g)
    &&& forall|g: int|
        0 <= g < pre.granule_count() ==> (post.free_granule(g) <==> (pre.free_granule(g) && !(a
            <= gran_addr(g) < a + size)))
}

/// What freeing the range `[a, a + size)` does to the allocator's abstract
/// state: the range was wholly live before and is exactly what becomes free.
pub open spec fn dealloc_step(pre: HeapAllocator, post: HeapAllocator, a: u64, size: u64) -> bool {
    &&& post.spec_size() == pre.spec_size()
    &&& post.granule_count() == pre.granule_count()
    &&& forall|g: int| a <= gran_addr(g) < a + size ==> !pre.free_granule(g)
    &&& forall|g: int|
        0 <= g < pre.granule_count() ==> (post.free_granule(g) <==> (pre.free_granule(g) || (a
            <= gran_addr(g) < a + size)))
}

/// The heap allocator: the current heap size (high-water mark), the
/// address-ordered free list, and the coalescing bitmask.
pub struct HeapAllocator {
    blocks: Vec<FreeBlock>,
    size: u64,
    mask: BitMask,
}

impl HeapAllocator {
    /// Current heap size in bytes: how much of the heap's virtual range has
    /// been mapped so far.
    pub closed spec fn spec_size(self) -> u64 {
        self.size
    }

    /// Number of granules the heap currently covers.
    pub closed spec fn granule_count(self) -> int {
        self.mask.spec_size() as int
    }

    /// Granule `g` is free according to the bitmask: its bit is clear.
    pub closed spec fn free_granule(self, g: int) -> bool {
        !self.mask.bit(g)
    }

    /// The free list as a sequence of blocks in address order.
    pub closed spec fn spec_blocks(self) -> Seq<FreeBlock> {
        self.blocks@
    }

    /// Granule `g` lies inside some block reachable from the free-list head.
    pub open spec fn in_free_list(self, g: int) -> bool {
        exists|i: int| 0 <= i < self.spec_blocks().len() && covers(#[trigger] self.spec_blocks()[i], g)
    }

    /// A single block is well formed: granule-aligned, at least one granule
    /// long, and inside the mapped heap range.
    pub open spec fn block_wf(self, b: FreeBlock) -> bool {
        &&& b.addr >= HEAP_START_ADDR
        &&& (b.addr - HEAP_START_ADDR) % 64 == 0
        &&& b.size % 64 == 0
        &&& b.size >= 64
        &&& b.addr + b.size <= HEAP_START_ADDR + self.spec_size()
    }

    /// The allocator's invariant.
    ///
    /// The last clause is the bitmask/free-list consistency property: a
    /// granule's bit is clear exactly when the granule lies in some block
    /// of the free list.  The strict `<` between consecutive blocks means
    /// the list is address-ordered and fully coalesced: two free blocks are
    /// never adjacent.
    pub closed spec fn wf(self) -> bool {
        &&& self.mask.wf()
        &&& self.size % 64 == 0
        &&& 64 * self.mask.spec_size() == self.size
        &&& self.blocks_sorted_wf()
        &&& forall|g: int|
            0 <= g < self.granule_count() ==> (self.free_granule(g) <==> self.in_free_list(g))
    }

    /// The structural half of the invariant: every block is well formed and
    /// the list is strictly ordered with gaps.
    pub closed spec fn blocks_sorted_wf(self) -> bool {
        &&& forall|i: int|
            0 <= i < self.blocks@.len() ==> self.block_wf(#[trigger] self.blocks@[i])
        &&& forall|i: int|
            0 <= i && i + 1 < self.blocks@.len() ==> (#[trigger] self.blocks@[i]).addr
                + self.blocks@[i].size < self.blocks@[i + 1].addr
    }

    /// Exposes the mask bounds of the invariant.
    proof fn lemma_mask_wf_bounds(&self)
        requires
            self.wf(),
        ensures
            self.mask.spec_size() <= HEAP_MASK_MAX_BITS,
    {
        self.mask.lemma_wf_bounds();
    }

    /// The arithmetic ties of the invariant, for callers outside this
    /// module: the mask holds one bit per granule, and the heap's virtual
    /// range stays well inside the address space.
    pub proof fn lemma_wf_bounds(&self)
        requires
            self.wf(),
        ensures
            64 * self.granule_count() == self.spec_size(),
            self.granule_count() <= HEAP_MASK_MAX_BITS,
            HEAP_START_ADDR + self.spec_size() <= u64::MAX,
    {
        self.mask.lemma_wf_bounds();
    }

    /// A fresh allocator: no heap mapped, no free block, an empty mask.
    pub fn new() -> (r: HeapAllocator)
        ensures
            r.wf(),
            r.spec_size() == 0,
            r.granule_count() == 0,
            r.spec_blocks().len() == 0,
    {
        HeapAllocator { blocks: Vec::new(), size: 0, mask: BitMask::new() }
    }

    /// One past the highest mapped heap address: where the next expansion
    /// must map its frames.
    pub fn boundry_addr(&self) -> (r: u64)
        requires
            self.wf(),
        ensures
            r == HEAP_START_ADDR + self.spec_size(),
    {
        proof {
            lemma_heap_size_bound(*self);
        }
        HEAP_START_ADDR + self.size
    }

    /// Blocks are ordered: an earlier block ends strictly before any later
    /// one begins.
    proof fn lemma_blocks_ordered(self, i: int, j: int)
        requires
            self.blocks_sorted_wf(),
            0 <= i < j < self.spec_blocks().len(),
        ensures
            self.spec_blocks()[i].addr + self.spec_blocks()[i].size < self.spec_blocks()[j].addr,
        decreases j - i,
    {
        if i + 1 < j {
            self.lemma_blocks_ordered(i, j - 1);
        }
    }

    /// No granule lies in two different blocks.
    proof fn lemma_unique_cover(self, g: int, i: int, j: int)
        requires
            self.blocks_sorted_wf(),
            0 <= i < self.spec_blocks().len(),
            0 <= j < self.spec_blocks().len(),
            covers(self.spec_blocks()[i], g),
            covers(self.spec_blocks()[j], g),
        ensures
            i == j,
    {
        if i < j {
            self.lemma_blocks_ordered(i, j);
        }
        if j < i {
            self.lemma_blocks_ordered(j, i);
        }
    }

    /// Index of the first block whose address is at or above `addr`: the
    /// position where a block starting at `addr` belongs in address order.
    fn find_insert_pos(&self, addr: u64) -> (i: usize)
        requires
            self.wf(),
        ensures
            i <= self.spec_blocks().len(),
            forall|j: int| 0 <= j < i ==> (#[trigger] self.spec_blocks()[j]).addr < addr,
            forall|j: int|
                i <= j < self.spec_blocks().len() ==> (#[trigger] self.spec_blocks()[j]).addr
                    >= addr,
    {
        let n = self.blocks.len();
        let mut i: usize = 0;
        while i < n && self.blocks[i].addr < addr
            invariant
                i <= n,
                n == self.spec_blocks().len(),
                self.wf(),
                forall|j: int| 0 <= j < i ==> (#[trigger] self.spec_blocks()[j]).addr < addr,
            decreases n - i,
        {
            i = i + 1;
        }
        proof {
            assert forall|j: int|
                i <= j < self.spec_blocks().len() implies (#[trigger] self.spec_blocks()[j]).addr
                >= addr by {
                if (i as int) < j {
                    self.lemma_blocks_ordered(i as int, j);
                }
            }
        }
        i
    }

    /// When the granule before the freed range is free, the block holding
    /// it is the one just below the insertion position, and it ends exactly
    /// where the freed range begins.
    proof fn lemma_pred_block(self, addr: int, gs: int, i: int)
        requires
            self.wf(),
            addr >= HEAP_START_ADDR,
            64 * gs == addr - HEAP_START_ADDR,
            gs >= 1,
            gs < self.granule_count(),
            self.free_granule(gs - 1),
            !self.free_granule(gs),
            0 <= i <= self.spec_blocks().len(),
            forall|j: int| 0 <= j < i ==> (#[trigger] self.spec_blocks()[j]).addr < addr,
            forall|j: int|
                i <= j < self.spec_blocks().len() ==> (#[trigger] self.spec_blocks()[j]).addr
                    >= addr,
        ensures
            i >= 1,
            self.spec_blocks()[i - 1].addr + self.spec_blocks()[i - 1].size == addr,
    {
        assert(self.in_free_list(gs - 1));
        let b = choose|b: int|
            0 <= b < self.spec_blocks().len() && covers(#[trigger] self.spec_blocks()[b], gs - 1);
        let bj = self.spec_blocks()[b];
        if bj.addr + bj.size > addr {
            assert(covers(bj, gs));
            assert(self.in_free_list(gs));
            assert(false);
        }
        lemma_mod64_sum(bj.addr - HEAP_START_ADDR, bj.size as int);
        lemma_mod64_sum(addr - HEAP_START_ADDR, 64);
        lemma_aligned_step(bj.addr + bj.size, addr - 64);
        assert(bj.addr + bj.size == addr);
        assert(bj.addr < addr);
        assert(b < i);
        if b < i - 1 {
            self.lemma_blocks_ordered(b, i - 1);
            assert(false);
        }
    }

    /// When the granule after the freed range is free, the block holding it
    /// sits exactly at the insertion position and begins exactly where the
    /// freed range ends.
    proof fn lemma_succ_block(self, addr: int, size: int, ge: int, i: int)
        requires
            self.wf(),
            addr >= HEAP_START_ADDR,
            (addr - HEAP_START_ADDR) % 64 == 0,
            64 * ge == addr + size - HEAP_START_ADDR,
            size >= 64,
            size % 64 == 0,
            ge < self.granule_count(),
            self.free_granule(ge),
            forall|g: int| addr <= gran_addr(g) < addr + size ==> !self.free_granule(g),
            0 <= i <= self.spec_blocks().len(),
            forall|j: int| 0 <= j < i ==> (#[trigger] self.spec_blocks()[j]).addr < addr,
            forall|j: int|
                i <= j < self.spec_blocks().len() ==> (#[trigger] self.spec_blocks()[j]).addr
                    >= addr,
        ensures
            i < self.spec_blocks().len(),
            self.spec_blocks()[i].addr == addr + size,
    {
        assert(self.in_free_list(ge));
        let b = choose|b: int|
            0 <= b < self.spec_blocks().len() && covers(#[trigger] self.spec_blocks()[b], ge);
        let bj = self.spec_blocks()[b];
        if bj.addr <= addr + size - 64 {
            assert(covers(bj, ge - 1));
            assert(self.in_free_list(ge - 1));
            assert(gran_addr(ge - 1) == addr + size - 64);
            assert(!self.free_granule(ge - 1));
            assert(false);
        }
        lemma_mod64_sum(addr - HEAP_START_ADDR, size as int);
        lemma_mod64_sum(addr + size - HEAP_START_ADDR, 64);
        lemma_aligned_step(bj.addr as int, addr + size - 64);
        assert(bj.addr == addr + size);
        assert(b >= i);
        if b > i {
            let bi = self.spec_blocks()[i];
            self.lemma_blocks_ordered(i, b);
            lemma_fundamental_div_mod(bi.addr - HEAP_START_ADDR, 64);
            let gp = (bi.addr - HEAP_START_ADDR) / 64;
            assert(gran_addr(gp) == bi.addr);
            assert(covers(bi, gp));
            assert(self.in_free_list(gp));
            assert(addr <= gran_addr(gp) < addr + size);
            assert(!self.free_granule(gp));
            assert(0 <= gp < self.granule_count());
            assert(false);
        }
    }

    /// When the granule before the freed range is live (or absent), the
    /// block below the insertion position ends strictly before the range.
    proof fn lemma_no_pred_gap(self, addr: int, gs: int, i: int)
        requires
            self.wf(),
            addr >= HEAP_START_ADDR,
            64 * gs == addr - HEAP_START_ADDR,
            gs < self.granule_count(),
            gs >= 1 ==> !self.free_granule(gs - 1),
            !self.free_granule(gs),
            0 <= i <= self.spec_blocks().len(),
            forall|j: int| 0 <= j < i ==> (#[trigger] self.spec_blocks()[j]).addr < addr,
        ensures
            i >= 1 ==> self.spec_blocks()[i - 1].addr + self.spec_blocks()[i - 1].size < addr,
    {
        if i >= 1 {
            let bj = self.spec_blocks()[i - 1];
            if bj.addr + bj.size > addr {
                assert(covers(bj, gs));
                assert(self.in_free_list(gs));
                assert(false);
            }
            if bj.addr + bj.size == addr {
                lemma_aligned_gap(bj.addr as int, addr);
                assert(gs >= 1);
                assert(covers(bj, gs - 1));
                assert(self.in_free_list(gs - 1));
                assert(false);
            }
        }
    }

    /// When the granule after the freed range is live (or the range reaches
    /// the top of the heap), the block at the insertion position begins
    /// strictly after the range.
    proof fn lemma_no_succ_gap(self, addr: int, size: int, ge: int, i: int)
        requires
            self.wf(),
            addr >= HEAP_START_ADDR,
            (addr - HEAP_START_ADDR) % 64 == 0,
            64 * ge == addr + size - HEAP_START_ADDR,
            size >= 64,
            size % 64 == 0,
            ge <= self.granule_count(),
            ge < self.granule_count() ==> !self.free_granule(ge),
            forall|g: int| addr <= gran_addr(g) < addr + size ==> !self.free_granule(g),
            0 <= i <= self.spec_blocks().len(),
            forall|j: int|
                i <= j < self.spec_blocks().len() ==> (#[trigger] self.spec_blocks()[j]).addr
                    >= addr,
        ensures
            i < self.spec_blocks().len() ==> self.spec_blocks()[i].addr > addr + size,
    {
        if i < self.spec_blocks().len() {
            let bi = self.spec_blocks()[i];
            lemma_fundamental_div_mod(bi.addr - HEAP_START_ADDR, 64);
            let gp = (bi.addr - HEAP_START_ADDR) / 64;
            assert(gran_addr(gp) == bi.addr);
            if bi.addr < addr + size {
                assert(covers(bi, gp));
                assert(self.in_free_list(gp));
                assert(addr <= gran_addr(gp) < addr + size);
                assert(0 <= gp < self.granule_count());
                assert(!self.free_granule(gp));
                assert(false);
            }
            if bi.addr == addr + size {
                if ge < self.granule_count() {
                    assert(covers(bi, ge));
                    assert(self.in_free_list(ge));
                    assert(false);
                } else {
                    assert(bi.addr + bi.size <= HEAP_START_ADDR + self.spec_size());
                    assert(64 * self.granule_count() == self.spec_size());
                    assert(false);
                }
            }
        }
    }

    /// Grows the predecessor block backward over the freed range: the
    /// freed range begins exactly where the block before it ends.  In raw
    /// memory this would expand the block in place, re-stamping its
    /// boundary tag.
    fn merge_prev_only(&mut self, i: usize, addr: u64, size: u64)
        requires
            old(self).wf(),
            1 <= i <= old(self).spec_blocks().len(),
            old(self).spec_blocks()[i - 1].addr + old(self).spec_blocks()[i - 1].size == addr,
            size % 64 == 0,
            size >= 64,
            addr + size <= HEAP_START_ADDR + old(self).spec_size(),
            i < old(self).spec_blocks().len() ==> old(self).spec_blocks()[i as int].addr > addr
                + size,
        ensures
            final(self).blocks_sorted_wf(),
            final(self).mask == old(self).mask,
            final(self).spec_size() == old(self).spec_size(),
            forall|g: int|
                final(self).in_free_list(g) <==> (old(self).in_free_list(g) || (addr <= gran_addr(
                    g,
                ) < addr + size)),
    {
        proof {
            lemma_heap_size_bound(*old(self));
        }
        let b = self.blocks[i - 1];
        self.blocks.set(i - 1, FreeBlock { addr: b.addr, size: b.size + size });
        proof {
            let pre = *old(self);
            let post = *self;
            let ii = (i - 1) as int;
            lemma_mod64_sum(b.size as int, size as int);
            assert forall|j: int|
                0 <= j < post.spec_blocks().len() implies post.block_wf(
                #[trigger] post.spec_blocks()[j],
            ) by {
                if j != ii {
                    assert(post.spec_blocks()[j] == pre.spec_blocks()[j]);
                    assert(pre.block_wf(pre.spec_blocks()[j]));
                }
            }
            assert forall|j: int|
                0 <= j && j + 1 < post.spec_blocks().len() implies (#[trigger] post.spec_blocks()[j]).addr
                + post.spec_blocks()[j].size < post.spec_blocks()[j + 1].addr by {
                if j == ii {
                    assert(post.spec_blocks()[j + 1] == pre.spec_blocks()[j + 1]);
                    assert(pre.spec_blocks()[j + 1].addr > addr + size);
                } else if j + 1 == ii {
                    assert(post.spec_blocks()[j] == pre.spec_blocks()[j]);
                    assert(pre.spec_blocks()[j].addr + pre.spec_blocks()[j].size
                        < pre.spec_blocks()[ii].addr);
                } else {
                    assert(post.spec_blocks()[j] == pre.spec_blocks()[j]);
                    assert(post.spec_blocks()[j + 1] == pre.spec_blocks()[j + 1]);
                    assert(pre.spec_blocks()[j].addr + pre.spec_blocks()[j].size
                        < pre.spec_blocks()[j + 1].addr);
                }
            }
            assert forall|g: int|
                post.in_free_list(g) <==> (pre.in_free_list(g) || (addr <= gran_addr(g) < addr
                    + size)) by {
                if post.in_free_list(g) {
                    let j = choose|j: int|
                        0 <= j < post.spec_blocks().len() && covers(
                            #[trigger] post.spec_blocks()[j],
                            g,
                        );
                    if j == ii {
                        assert(covers(pre.spec_blocks()[j], g) || (addr <= gran_addr(g) < addr
                            + size));
                    } else {
                        assert(covers(pre.spec_blocks()[j], g));
                    }
                }
                if pre.in_free_list(g) {
                    let j = choose|j: int|
                        0 <= j < pre.spec_blocks().len() && covers(
                            #[trigger] pre.spec_blocks()[j],
                            g,
                        );
                    if j == ii {
                        assert(covers(post.spec_blocks()[ii], g));
                    } else {
                        assert(covers(post.spec_blocks()[j], g));
                    }
                    assert(post.in_free_list(g));
                }
                if addr <= gran_addr(g) < addr + size {
                    assert(covers(post.spec_blocks()[ii], g));
                    assert(post.in_free_list(g));
                }
            }
        }
    }

    /// Grows the successor block forward over the freed range, relocating
    /// its header to the lower start address: the freed range ends exactly
    /// where the block begins.
    fn merge_next_only(&mut self, i: usize, addr: u64, size: u64)
        requires
            old(self).wf(),
            i < old(self).spec_blocks().len(),
            old(self).spec_blocks()[i as int].addr == addr + size,
            addr >= HEAP_START_ADDR,
            (addr - HEAP_START_ADDR) % 64 == 0,
            size % 64 == 0,
            size >= 64,
            i >= 1 ==> old(self).spec_blocks()[i - 1].addr + old(self).spec_blocks()[i - 1].size
                < addr,
        ensures
            final(self).blocks_sorted_wf(),
            final(self).mask == old(self).mask,
            final(self).spec_size() == old(self).spec_size(),
            forall|g: int|
                final(self).in_free_list(g) <==> (old(self).in_free_list(g) || (addr <= gran_addr(
                    g,
                ) < addr + size)),
    {
        proof {
            lemma_heap_size_bound(*old(self));
        }
        let b = self.blocks[i];
        self.blocks.set(i, FreeBlock { addr, size: b.size + size });
        proof {
            let pre = *old(self);
            let post = *self;
            let ii = i as int;
            lemma_mod64_sum(b.size as int, size as int);
            lemma_mod64_sum(pre.spec_blocks()[ii].addr - HEAP_START_ADDR, size as int);
            assert forall|j: int|
                0 <= j < post.spec_blocks().len() implies post.block_wf(
                #[trigger] post.spec_blocks()[j],
            ) by {
                if j != ii {
                    assert(post.spec_blocks()[j] == pre.spec_blocks()[j]);
                    assert(pre.block_wf(pre.spec_blocks()[j]));
                }
            }
            assert forall|j: int|
                0 <= j && j + 1 < post.spec_blocks().len() implies (#[trigger] post.spec_blocks()[j]).addr
                + post.spec_blocks()[j].size < post.spec_blocks()[j + 1].addr by {
                if j == ii {
                    assert(post.spec_blocks()[j + 1] == pre.spec_blocks()[j + 1]);
                    assert(pre.spec_blocks()[ii].addr + pre.spec_blocks()[ii].size
                        < pre.spec_blocks()[j + 1].addr);
                } else if j + 1 == ii {
                    assert(post.spec_blocks()[j] == pre.spec_blocks()[j]);
                } else {
                    assert(post.spec_blocks()[j] == pre.spec_blocks()[j]);
                    assert(post.spec_blocks()[j + 1] == pre.spec_blocks()[j + 1]);
                    assert(pre.spec_blocks()[j].addr + pre.spec_blocks()[j].size
                        < pre.spec_blocks()[j + 1].addr);
                }
            }
            assert forall|g: int|
                post.in_free_list(g) <==> (pre.in_free_list(g) || (addr <= gran_addr(g) < addr
                    + size)) by {
                if post.in_free_list(g) {
                    let j = choose|j: int|
                        0 <= j < post.spec_blocks().len() && covers(
                            #[trigger] post.spec_blocks()[j],
                            g,
                        );
                    if j == ii {
                        assert(covers(pre.spec_blocks()[j], g) || (addr <= gran_addr(g) < addr
                            + size));
                    } else {
                        assert(covers(pre.spec_blocks()[j], g));
                    }
                }
                if pre.in_free_list(g) {
                    let j = choose|j: int|
                        0 <= j < pre.spec_blocks().len() && covers(
                            #[trigger] pre.spec_blocks()[j],
                            g,
                        );
                    if j == ii {
                        assert(covers(post.spec_blocks()[ii], g));
                    } else {
                        assert(covers(post.spec_blocks()[j], g));
                    }
                    assert(post.in_free_list(g));
                }
                if addr <= gran_addr(g) < addr + size {
                    assert(covers(post.spec_blocks()[ii], g));
                    assert(post.in_free_list(g));
                }
            }
        }
    }

    /// Absorbs the freed range and the successor block into the
    /// predecessor block, splicing the successor out of the list: the range
    /// exactly bridges the two.
    fn merge_both(&mut self, i: usize, addr: u64, size: u64)
        requires
            old(self).wf(),
            1 <= i < old(self).spec_blocks().len(),
            old(self).spec_blocks()[i - 1].addr + old(self).spec_blocks()[i - 1].size == addr,
            old(self).spec_blocks()[i as int].addr == addr + size,
            size % 64 == 0,
            size >= 64,
        ensures
            final(self).blocks_sorted_wf(),
            final(self).mask == old(self).mask,
            final(self).spec_size() == old(self).spec_size(),
            forall|g: int|
                final(self).in_free_list(g) <==> (old(self).in_free_list(g) || (addr <= gran_addr(
                    g,
                ) < addr + size)),
    {
        proof {
            lemma_heap_size_bound(*old(self));
        }
        let bp = self.blocks[i - 1];
        let bn = self.blocks[i];
        self.blocks.set(i - 1, FreeBlock { addr: bp.addr, size: bp.size + size + bn.size });
        self.blocks.remove(i);
        proof {
            let pre = *old(self);
            let post = *self;
            let ii = (i - 1) as int;
            lemma_mod64_sum(bp.size as int, size as int);
            lemma_mod64_sum(bp.size + size, bn.size as int);
            let mid = pre.spec_blocks().update(ii, FreeBlock {
                addr: bp.addr,
                size: (bp.size + size + bn.size) as u64,
            });
            mid.remove_ensures(i as int);
            assert(post.spec_blocks() == mid.remove(i as int));
            assert(post.spec_blocks().len() == pre.spec_blocks().len() - 1);
            assert(forall|j: int| 0 <= j < ii ==> #[trigger] post.spec_blocks()[j] == pre.spec_blocks()[j]);
            assert(forall|j: int|
                ii < j < post.spec_blocks().len() ==> #[trigger] post.spec_blocks()[j]
                    == pre.spec_blocks()[j + 1]);
            assert(post.spec_blocks()[ii] == mid[ii]);
            assert forall|g: int|
                post.in_free_list(g) <==> (pre.in_free_list(g) || (addr <= gran_addr(g) < addr
                    + size)) by {
                if post.in_free_list(g) {
                    let j = choose|j: int|
                        0 <= j < post.spec_blocks().len() && covers(
                            #[trigger] post.spec_blocks()[j],
                            g,
                        );
                    if j == ii {
                        assert(covers(pre.spec_blocks()[ii], g) || covers(
                            pre.spec_blocks()[ii + 1],
                            g,
                        ) || (addr <= gran_addr(g) < addr + size));
                    } else if j < ii {
                        assert(covers(pre.spec_blocks()[j], g));
                    } else {
                        assert(covers(pre.spec_blocks()[j + 1], g));
                    }
                }
                if pre.in_free_list(g) {
                    let j = choose|j: int|
                        0 <= j < pre.spec_blocks().len() && covers(
                            #[trigger] pre.spec_blocks()[j],
                            g,
                        );
                    if j == ii || j == ii + 1 {
                        assert(covers(post.spec_blocks()[ii], g));
                    } else if j < ii {
                        assert(covers(post.spec_blocks()[j], g));
                    } else {
                        assert(covers(post.spec_blocks()[j - 1], g));
                    }
                    assert(post.in_free_list(g));
                }
                if addr <= gran_addr(g) < addr + size {
                    assert(covers(post.spec_blocks()[ii], g));
                    assert(post.in_free_list(g));
                }
            }
            assert forall|j: int|
                0 <= j < post.spec_blocks().len() implies post.block_wf(
                #[trigger] post.spec_blocks()[j],
            ) by {
                if j < ii {
                    assert(post.spec_blocks()[j] == pre.spec_blocks()[j]);
                    assert(pre.block_wf(pre.spec_blocks()[j]));
                } else if j == ii {
                    assert(pre.block_wf(pre.spec_blocks()[ii]));
                    assert(pre.block_wf(pre.spec_blocks()[ii + 1]));
                } else {
                    assert(post.spec_blocks()[j] == pre.spec_blocks()[j + 1]);
                    assert(pre.block_wf(pre.spec_blocks()[j + 1]));
                }
            }
            assert forall|j: int|
                0 <= j && j + 1 < post.spec_blocks().len() implies (#[trigger] post.spec_blocks()[j]).addr
                + post.spec_blocks()[j].size < post.spec_blocks()[j + 1].addr by {
                if j + 1 < ii {
                    assert(post.spec_blocks()[j] == pre.spec_blocks()[j]);
                    assert(post.spec_blocks()[j + 1] == pre.spec_blocks()[j + 1]);
                    assert(pre.spec_blocks()[j].addr + pre.spec_blocks()[j].size
                        < pre.spec_blocks()[j + 1].addr);
                } else if j + 1 == ii {
                    assert(post.spec_blocks()[j] == pre.spec_blocks()[j]);
                    assert(pre.spec_blocks()[j].addr + pre.spec_blocks()[j].size
                        < pre.spec_blocks()[ii].addr);
                } else if j == ii {
                    assert(post.spec_blocks()[j + 1] == pre.spec_blocks()[j + 2]);
                    assert(pre.spec_blocks()[ii + 1].addr + pre.spec_blocks()[ii + 1].size
                        < pre.spec_blocks()[ii + 2].addr);
                } else {
                    assert(post.spec_blocks()[j] == pre.spec_blocks()[j + 1]);
                    assert(post.spec_blocks()[j + 1] == pre.spec_blocks()[j + 2]);
                    assert(pre.spec_blocks()[j + 1].addr + pre.spec_blocks()[j + 1].size
                        < pre.spec_blocks()[j + 2].addr);
                }
            }
        }
    }

    /// Inserts a brand-new free block at its address-ordered position: the
    /// freed range touches no free neighbor.  The position is found by
    /// scanning the address-ordered list from the head.
    fn add_free_block(&mut self, addr: u64, size: u64)
        requires
            old(self).wf(),
            addr >= HEAP_START_ADDR,
            (addr - HEAP_START_ADDR) % 64 == 0,
            size % 64 == 0,
            size >= 64,
            addr + size <= HEAP_START_ADDR + old(self).spec_size(),
            forall|j: int|
                0 <= j < old(self).spec_blocks().len() ==> ((#[trigger] old(self).spec_blocks()[j]).addr
                    + old(self).spec_blocks()[j].size < addr || old(self).spec_blocks()[j].addr
                    > addr + size),
        ensures
            final(self).blocks_sorted_wf(),
            final(self).mask == old(self).mask,
            final(self).spec_size() == old(self).spec_size(),
            forall|g: int|
                final(self).in_free_list(g) <==> (old(self).in_free_list(g) || (addr <= gran_addr(
                    g,
                ) < addr + size)),
    {
        let i = self.find_insert_pos(addr);
        self.blocks.insert(i, FreeBlock { addr, size });
        proof {
            let pre = *old(self);
            let post = *self;
            let ii = i as int;
            pre.spec_blocks().insert_ensures(ii, FreeBlock { addr, size });
            assert(post.spec_blocks() == pre.spec_blocks().insert(ii, FreeBlock { addr, size }));
            assert(forall|j: int| 0 <= j < ii ==> #[trigger] post.spec_blocks()[j] == pre.spec_blocks()[j]);
            assert(forall|j: int|
                ii < j < post.spec_blocks().len() ==> #[trigger] post.spec_blocks()[j]
                    == pre.spec_blocks()[j - 1]);
            assert(post.spec_blocks()[ii] == FreeBlock { addr, size });
            assert forall|g: int|
                post.in_free_list(g) <==> (pre.in_free_list(g) || (addr <= gran_addr(g) < addr
                    + size)) by {
                if post.in_free_list(g) {
                    let j = choose|j: int|
                        0 <= j < post.spec_blocks().len() && covers(
                            #[trigger] post.spec_blocks()[j],
                            g,
                        );
                    if j < ii {
                        assert(covers(pre.spec_blocks()[j], g));
                    } else if j > ii {
                        assert(covers(pre.spec_blocks()[j - 1], g));
                    }
                }
                if pre.in_free_list(g) {
                    let j = choose|j: int|
                        0 <= j < pre.spec_blocks().len() && covers(
                            #[trigger] pre.spec_blocks()[j],
                            g,
                        );
                    if j < ii {
                        assert(covers(post.spec_blocks()[j], g));
                    } else {
                        assert(covers(post.spec_blocks()[j + 1], g));
                    }
                    assert(post.in_free_list(g));
                }
                if addr <= gran_addr(g) < addr + size {
                    assert(covers(post.spec_blocks()[ii], g));
                    assert(post.in_free_list(g));
                }
            }
            assert forall|j: int|
                0 <= j && j + 1 < post.spec_blocks().len() implies (#[trigger] post.spec_blocks()[j]).addr
                + post.spec_blocks()[j].size < post.spec_blocks()[j + 1].addr by {
                if j + 1 < ii {
                } else if j + 1 == ii {
                    assert(pre.spec_blocks()[j].addr < addr);
                    assert(pre.spec_blocks()[j].addr + pre.spec_blocks()[j].size < addr
                        || pre.spec_blocks()[j].addr > addr + size);
                } else if j == ii {
                    assert(pre.spec_blocks()[j].addr >= addr);
                    assert(pre.spec_blocks()[j].addr + pre.spec_blocks()[j].size < addr
                        || pre.spec_blocks()[j].addr > addr + size);
                } else {
                    assert(pre.spec_blocks()[j - 1].addr + pre.spec_blocks()[j - 1].size
                        < pre.spec_blocks()[j].addr);
                }
            }
        }
    }

    /// Dispatches to the merge shape that the two boundary bits selected.
    fn apply_merge(&mut self, i: usize, can_pre: bool, can_back: bool, addr: u64, size: u64)
        requires
            old(self).wf(),
            addr >= HEAP_START_ADDR,
            (addr - HEAP_START_ADDR) % 64 == 0,
            size % 64 == 0,
            size >= 64,
            addr + size <= HEAP_START_ADDR + old(self).spec_size(),
            i <= old(self).spec_blocks().len(),
            can_pre ==> 1 <= i && old(self).spec_blocks()[i - 1].addr + old(
                self,
            ).spec_blocks()[i - 1].size == addr,
            !can_pre && i >= 1 ==> old(self).spec_blocks()[i - 1].addr + old(
                self,
            ).spec_blocks()[i - 1].size < addr,
            can_back ==> i < old(self).spec_blocks().len() && old(self).spec_blocks()[i as int].addr
                == addr + size,
            !can_back && i < old(self).spec_blocks().len() ==> old(self).spec_blocks()[i as int].addr
                > addr + size,
            forall|j: int| 0 <= j < i ==> (#[trigger] old(self).spec_blocks()[j]).addr < addr,
            forall|j: int|
                i <= j < old(self).spec_blocks().len() ==> (#[trigger] old(
                    self,
                ).spec_blocks()[j]).addr >= addr,
        ensures
            final(self).blocks_sorted_wf(),
            final(self).mask == old(self).mask,
            final(self).spec_size() == old(self).spec_size(),
            forall|g: int|
                final(self).in_free_list(g) <==> (old(self).in_free_list(g) || (addr <= gran_addr(
                    g,
                ) < addr + size)),
    {
        if can_pre {
            if can_back {
                self.merge_both(i, addr, size);
            } else {
                self.merge_prev_only(i, addr, size);
            }
        } else {
            if can_back {
                self.merge_next_only(i, addr, size);
            } else {
                proof {
                    assert forall|j: int|
                        0 <= j < old(self).spec_blocks().len() implies ((#[trigger] old(
                        self,
                    ).spec_blocks()[j]).addr + old(self).spec_blocks()[j].size < addr || old(
                        self,
                    ).spec_blocks()[j].addr > addr + size) by {
                        if j < i - 1 {
                            old(self).lemma_blocks_ordered(j, i - 1);
                        }
                        if i < j {
                            old(self).lemma_blocks_ordered(i as int, j);
                        }
                    }
                }
                self.add_free_block(addr, size);
            }
        }
    }

    /// Returns the freed byte range `[addr, addr + size)` to the free list,
    /// coalescing with its neighbors.  The bitmask decides in constant time
    /// which of the four merge shapes applies: it reads the bit just before
    /// the range and the bit just after it.  Afterwards the range's own bits
    /// are cleared.
    ///
    /// The range must be a live allocation: every granule of it has its bit
    /// set.  Passing anything else is a caller bug with no reportable error
    /// (undefined behavior by contract), so it is excluded here.
    pub fn ins_merg_free_block(&mut self, addr: u64, size: u64)
        requires
            old(self).wf(),
            addr >= HEAP_START_ADDR,
            (addr - HEAP_START_ADDR) % 64 == 0,
            size % 64 == 0,
            size >= 64,
            addr + size <= HEAP_START_ADDR + old(self).spec_size(),
            forall|g: int|
                0 <= g < old(self).granule_count() && addr <= gran_addr(g) < addr + size ==> !old(
                    self,
                ).free_granule(g),
        ensures
            final(self).wf(),
            final(self).spec_size() == old(self).spec_size(),
            final(self).granule_count() == old(self).granule_count(),
            final(self).spec_blocks().len() >= 1,
            dealloc_step(*old(self), *final(self), addr, size),
    {
        proof {
            lemma_heap_size_bound(*old(self));
        }
        let ghost pre = *self;
        proof {
            assert(64 * pre.granule_count() == pre.spec_size());
            assert forall|g: int| addr <= gran_addr(g) < addr + size implies !pre.free_granule(
                g,
            ) by {
                assert(0 <= g < pre.granule_count());
            }
        }
        let gs = granule_of(addr);
        proof {
            lemma_mod64_sum(addr - HEAP_START_ADDR, size as int);
        }
        let ge = granule_of(addr + size);
        proof {
            assert(64 * gs == addr - HEAP_START_ADDR);
            assert(64 * ge == addr + size - HEAP_START_ADDR);
            assert(64 * ge <= 64 * pre.granule_count());
        }
        let msize = self.mask.size();
        let can_merge_pre = gs > 0 && !self.mask.is_set(gs - 1);
        let can_merge_back = ge < msize && !self.mask.is_set(ge);
        let i = self.find_insert_pos(addr);
        proof {
            assert(!pre.free_granule(gs as int)) by {
                assert(addr <= gran_addr(gs as int) < addr + size);
            }
            assert(!pre.free_granule(ge - 1)) by {
                assert(addr <= gran_addr(ge - 1) < addr + size);
            }
            if can_merge_pre {
                pre.lemma_pred_block(addr as int, gs as int, i as int);
            } else {
                pre.lemma_no_pred_gap(addr as int, gs as int, i as int);
            }
            if can_merge_back {
                pre.lemma_succ_block(addr as int, size as int, ge as int, i as int);
            } else {
                pre.lemma_no_succ_gap(addr as int, size as int, ge as int, i as int);
            }
        }
        self.apply_merge(i, can_merge_pre, can_merge_back, addr, size);
        let ghost mid = *self;
        self.mask.range_off(gs, ge - 1);
        proof {
            HeapAllocator::lemma_dealloc_finish(pre, mid, *self, addr, size, gs, ge);
        }
    }

    /// Assembles the invariant and the abstract transition after a merge
    /// arm has reshaped the free list and the freed range's bits have been
    /// cleared.
    proof fn lemma_dealloc_finish(
        pre: HeapAllocator,
        mid: HeapAllocator,
        post: HeapAllocator,
        addr: u64,
        size: u64,
        gs: u64,
        ge: u64,
    )
        requires
            pre.wf(),
            addr >= HEAP_START_ADDR,
            size % 64 == 0,
            size >= 64,
            addr + size <= HEAP_START_ADDR + pre.spec_size(),
            64 * gs == addr - HEAP_START_ADDR,
            64 * ge == addr + size - HEAP_START_ADDR,
            forall|g: int| addr <= gran_addr(g) < addr + size ==> !pre.free_granule(g),
            mid.blocks_sorted_wf(),
            mid.mask == pre.mask,
            mid.spec_size() == pre.spec_size(),
            forall|g: int|
                mid.in_free_list(g) <==> (pre.in_free_list(g) || (addr <= gran_addr(g) < addr
                    + size)),
            post.spec_blocks() == mid.spec_blocks(),
            post.spec_size() == mid.spec_size(),
            post.mask.wf(),
            post.mask.spec_size() == pre.mask.spec_size(),
            forall|g: int|
                0 <= g < pre.granule_count() ==> (#[trigger] post.mask.bit(g) <==> (
                pre.mask.bit(g) && !(gs <= g <= ge - 1))),
        ensures
            post.wf(),
            post.spec_size() == pre.spec_size(),
            post.granule_count() == pre.granule_count(),
            post.spec_blocks().len() >= 1,
            dealloc_step(pre, post, addr, size),
    {
        assert forall|g: int| 0 <= g < pre.granule_count() implies (#[trigger] post.free_granule(g)
            <==> (pre.free_granule(g) || (addr <= gran_addr(g) < addr + size))) by {
            assert((gs <= g <= ge - 1) <==> (addr <= gran_addr(g) < addr + size));
        }
        assert forall|g: int| 0 <= g < post.granule_count() implies (post.free_granule(g)
            <==> post.in_free_list(g)) by {
            assert(post.in_free_list(g) == mid.in_free_list(g));
            assert(pre.free_granule(g) <==> pre.in_free_list(g));
        }
        assert(post.spec_blocks().len() >= 1) by {
            assert(addr <= gran_addr(gs as int) < addr + size);
            assert(mid.in_free_list(gs as int));
        }
        assert forall|i: int|
            0 <= i < post.spec_blocks().len() implies post.block_wf(
            #[trigger] post.spec_blocks()[i],
        ) by {
            assert(mid.block_wf(mid.spec_blocks()[i]));
        }
        assert(post.wf());
    }

    /// Splices block `i` out of the free list: an exact-fit allocation
    /// takes the whole block.
    fn remove_block(&mut self, i: usize)
        requires
            old(self).wf(),
            i < old(self).spec_blocks().len(),
        ensures
            final(self).blocks_sorted_wf(),
            final(self).mask == old(self).mask,
            final(self).spec_size() == old(self).spec_size(),
            forall|g: int|
                final(self).in_free_list(g) <==> (old(self).in_free_list(g) && !covers(
                    old(self).spec_blocks()[i as int],
                    g,
                )),
    {
        let ghost pre = *self;
        self.blocks.remove(i);
        proof {
            let post = *self;
            let ii = i as int;
            let b = pre.spec_blocks()[ii];
            pre.spec_blocks().remove_ensures(ii);
            assert(post.spec_blocks() == pre.spec_blocks().remove(ii));
            assert(forall|j: int|
                0 <= j < ii ==> #[trigger] post.spec_blocks()[j] == pre.spec_blocks()[j]);
            assert(forall|j: int|
                ii <= j < post.spec_blocks().len() ==> #[trigger] post.spec_blocks()[j]
                    == pre.spec_blocks()[j + 1]);
            assert forall|j: int|
                0 <= j && j + 1 < post.spec_blocks().len() implies (#[trigger] post.spec_blocks()[j]).addr
                + post.spec_blocks()[j].size < post.spec_blocks()[j + 1].addr by {
                if j + 1 == ii {
                    pre.lemma_blocks_ordered(j, ii + 1);
                } else if j + 1 < ii {
                    assert(pre.spec_blocks()[j].addr + pre.spec_blocks()[j].size
                        < pre.spec_blocks()[j + 1].addr);
                } else {
                    assert(pre.spec_blocks()[j + 1].addr + pre.spec_blocks()[j + 1].size
                        < pre.spec_blocks()[j + 2].addr);
                }
            }
            assert forall|g: int|
                post.in_free_list(g) <==> (pre.in_free_list(g) && !covers(b, g)) by {
                if post.in_free_list(g) {
                    let j = choose|j: int|
                        0 <= j < post.spec_blocks().len() && covers(
                            #[trigger] post.spec_blocks()[j],
                            g,
                        );
                    if j < ii {
                        assert(covers(pre.spec_blocks()[j], g));
                        if covers(b, g) {
                            pre.lemma_unique_cover(g, j, ii);
                        }
                    } else {
                        assert(covers(pre.spec_blocks()[j + 1], g));
                        if covers(b, g) {
                            pre.lemma_unique_cover(g, j + 1, ii);
                        }
                    }
                }
                if pre.in_free_list(g) && !covers(b, g) {
                    let j = choose|j: int|
                        0 <= j < pre.spec_blocks().len() && covers(
                            #[trigger] pre.spec_blocks()[j],
                            g,
                        );
                    if j < ii {
                        assert(covers(post.spec_blocks()[j], g));
                    } else {
                        assert(j != ii);
                        assert(covers(post.spec_blocks()[j - 1], g));
                    }
                    assert(post.in_free_list(g));
                }
            }
        }
    }

    /// Shrinks block `i` from its end by `size` bytes: the carved-out tail
    /// is what the allocation returns, and the block keeps its start
    /// address and its position in the list.
    fn shrink_block(&mut self, i: usize, size: u64)
        requires
            old(self).wf(),
            i < old(self).spec_blocks().len(),
            old(self).spec_blocks()[i as int].size > size,
            size % 64 == 0,
            size >= 64,
        ensures
            final(self).blocks_sorted_wf(),
            final(self).mask == old(self).mask,
            final(self).spec_size() == old(self).spec_size(),
            final(self).spec_blocks() == old(self).spec_blocks().update(
                i as int,
                (FreeBlock {
                    addr: old(self).spec_blocks()[i as int].addr,
                    size: (old(self).spec_blocks()[i as int].size - size) as u64,
                }),
            ),
            forall|g: int|
                final(self).in_free_list(g) <==> (old(self).in_free_list(g) && !(old(
                    self,
                ).spec_blocks()[i as int].addr + old(self).spec_blocks()[i as int].size - size
                    <= gran_addr(g) < old(self).spec_blocks()[i as int].addr + old(
                    self,
                ).spec_blocks()[i as int].size)),
    {
        let ghost pre = *self;
        let b = self.blocks[i];
        self.blocks.set(i, FreeBlock { addr: b.addr, size: b.size - size });
        proof {
            let post = *self;
            let ii = i as int;
            let a = b.addr + b.size - size;
            lemma_mod64_sum(b.size as int, size as int);
            lemma_fundamental_div_mod(b.size - size, 64);
            assert(b.size - size >= 64);
            assert forall|j: int|
                0 <= j && j + 1 < post.spec_blocks().len() implies (#[trigger] post.spec_blocks()[j]).addr
                + post.spec_blocks()[j].size < post.spec_blocks()[j + 1].addr by {
                assert(pre.spec_blocks()[j].addr + pre.spec_blocks()[j].size
                    < pre.spec_blocks()[j + 1].addr);
                if j != ii {
                    assert(post.spec_blocks()[j] == pre.spec_blocks()[j]);
                }
                if j + 1 != ii {
                    assert(post.spec_blocks()[j + 1] == pre.spec_blocks()[j + 1]);
                }
            }
            assert forall|g: int|
                post.in_free_list(g) <==> (pre.in_free_list(g) && !(a <= gran_addr(g) < b.addr
                    + b.size)) by {
                if post.in_free_list(g) {
                    let j = choose|j: int|
                        0 <= j < post.spec_blocks().len() && covers(
                            #[trigger] post.spec_blocks()[j],
                            g,
                        );
                    if j == ii {
                        assert(covers(pre.spec_blocks()[ii], g));
                    } else {
                        assert(covers(pre.spec_blocks()[j], g));
                        if a <= gran_addr(g) < b.addr + b.size {
                            assert(covers(pre.spec_blocks()[ii], g));
                            pre.lemma_unique_cover(g, j, ii);
                        }
                    }
                }
                if pre.in_free_list(g) && !(a <= gran_addr(g) < b.addr + b.size) {
                    let j = choose|j: int|
                        0 <= j < pre.spec_blocks().len() && covers(
                            #[trigger] pre.spec_blocks()[j],
                            g,
                        );
                    if j == ii {
                        assert(covers(post.spec_blocks()[ii], g));
                    } else {
                        assert(covers(post.spec_blocks()[j], g));
                    }
                    assert(post.in_free_list(g));
                }
            }
        }
    }

    /// Assembles the invariant and the abstract transition after an
    /// allocation has reshaped the free list and set the taken range's bits.
    proof fn lemma_alloc_finish(
        pre: HeapAllocator,
        mid: HeapAllocator,
        post: HeapAllocator,
        a: u64,
        size: u64,
        gs: u64,
        ge: u64,
    )
        requires
            pre.wf(),
            a >= HEAP_START_ADDR,
            size % 64 == 0,
            size >= 64,
            a + size <= HEAP_START_ADDR + pre.spec_size(),
            64 * gs == a - HEAP_START_ADDR,
            64 * ge == a + size - HEAP_START_ADDR,
            mid.blocks_sorted_wf(),
            mid.mask == pre.mask,
            mid.spec_size() == pre.spec_size(),
            forall|g: int|
                mid.in_free_list(g) <==> (pre.in_free_list(g) && !(a <= gran_addr(g) < a + size)),
            forall|g: int| a <= gran_addr(g) < a + size ==> pre.in_free_list(g),
            post.spec_blocks() == mid.spec_blocks(),
            post.spec_size() == mid.spec_size(),
            post.mask.wf(),
            post.mask.spec_size() == pre.mask.spec_size(),
            forall|g: int|
                0 <= g < pre.granule_count() ==> (#[trigger] post.mask.bit(g) <==> (
                pre.mask.bit(g) || gs <= g <= ge - 1)),
        ensures
            post.wf(),
            post.spec_size() == pre.spec_size(),
            post.granule_count() == pre.granule_count(),
            alloc_step(pre, post, a, size),
    {
        assert forall|g: int| a <= gran_addr(g) < a + size implies pre.free_granule(g) by {
            assert(pre.in_free_list(g));
            assert(0 <= g < pre.granule_count());
        }
        assert forall|g: int| 0 <= g < pre.granule_count() implies (#[trigger] post.free_granule(g)
            <==> (pre.free_granule(g) && !(a <= gran_addr(g) < a + size))) by {
            assert((gs <= g <= ge - 1) <==> (a <= gran_addr(g) < a + size));
        }
        assert forall|g: int| 0 <= g < post.granule_count() implies (post.free_granule(g)
            <==> post.in_free_list(g)) by {
            assert(post.in_free_list(g) == mid.in_free_list(g));
            assert(pre.free_granule(g) <==> pre.in_free_list(g));
        }
        assert forall|i: int|
            0 <= i < post.spec_blocks().len() implies post.block_wf(
            #[trigger] post.spec_blocks()[i],
        ) by {
            assert(mid.block_wf(mid.spec_blocks()[i]));
        }
        assert(post.wf());
    }

    /// Walks the free list from the head for the first block large enough,
    /// takes the whole block on an exact fit, and otherwise carves the tail
    /// off the block, then marks the taken range live in the bitmask.
    /// Returns nothing when no block fits; the caller grows the heap and
    /// retries.
    pub fn find_and_alloc(&mut self, size: u64) -> (r: Option<u64>)
        requires
            old(self).wf(),
            size % 64 == 0,
            size >= 64,
        ensures
            final(self).wf(),
            final(self).spec_size() == old(self).spec_size(),
            final(self).granule_count() == old(self).granule_count(),
            r is None ==> *final(self) == *old(self) && (forall|i: int|
                0 <= i < old(self).spec_blocks().len() ==> (#[trigger] old(
                    self,
                ).spec_blocks()[i]).size < size),
            r matches Some(a) ==> alloc_step(*old(self), *final(self), a, size),
            r matches Some(a) ==> (exists|i: int|
                0 <= i < old(self).spec_blocks().len() && (forall|j: int|
                    0 <= j < i ==> (#[trigger] old(self).spec_blocks()[j]).size < size) && (
                #[trigger] old(self).spec_blocks()[i]).size >= size && a as int == (
                if old(self).spec_blocks()[i].size == size {
                    old(self).spec_blocks()[i].addr as int
                } else {
                    old(self).spec_blocks()[i].addr + old(self).spec_blocks()[i].size - size
                })),
    {
        proof {
            lemma_heap_size_bound(*old(self));
        }
        let ghost pre = *self;
        let n = self.blocks.len();
        let mut i: usize = 0;
        while i < n && self.blocks[i].size < size
            invariant
                i <= n,
                n == self.spec_blocks().len(),
                *self == pre,
                forall|j: int| 0 <= j < i ==> (#[trigger] self.spec_blocks()[j]).size < size,
            decreases n - i,
        {
            i = i + 1;
        }
        if i == n {
            return None;
        }
        let b = self.blocks[i];
        proof {
            assert(pre.block_wf(b));
        }
        let a: u64;
        if b.size == size {
            self.remove_block(i);
            a = b.addr;
        } else {
            self.shrink_block(i, size);
            a = b.addr + (b.size - size);
        }
        proof {
            lemma_mod64_sum(b.addr - HEAP_START_ADDR, b.size - size);
            lemma_mod64_sum(b.size as int, size as int);
        }
        let ghost mid = *self;
        let gs = granule_of(a);
        let ge = granule_of(a + size);
        proof {
            assert(64 * ge <= 64 * pre.granule_count());
            assert forall|g: int| a <= gran_addr(g) < a + size implies covers(b, g) by {}
            assert forall|g: int| a <= gran_addr(g) < a + size implies pre.in_free_list(g) by {
                assert(covers(pre.spec_blocks()[i as int], g));
            }
        }
        self.mask.range_on(gs, ge - 1);
        proof {
            HeapAllocator::lemma_alloc_finish(pre, mid, *self, a, size, gs, ge);
        }
        Some(a)
    }

    /// Every block ends at or below the heap's high-water mark; when the
    /// granule just below the mark is free, the block holding it is the last
    /// block and ends exactly at the mark, and when it is live (or the heap
    /// is empty), every block ends strictly below the mark.
    proof fn lemma_top_block(self, addr: int, gs: int)
        requires
            self.wf(),
            addr == HEAP_START_ADDR + self.spec_size(),
            64 * gs == addr - HEAP_START_ADDR,
        ensures
            gs >= 1 && self.free_granule(gs - 1) ==> self.spec_blocks().len() >= 1
                && self.spec_blocks()[self.spec_blocks().len() - 1].addr + self.spec_blocks()[self.spec_blocks().len() - 1].size == addr,
            !(gs >= 1 && self.free_granule(gs - 1)) ==> forall|j: int|
                0 <= j < self.spec_blocks().len() ==> (#[trigger] self.spec_blocks()[j]).addr
                    + self.spec_blocks()[j].size < addr,
    {
        if gs >= 1 && self.free_granule(gs - 1) {
            assert(self.in_free_list(gs - 1));
            let b = choose|b: int|
                0 <= b < self.spec_blocks().len() && covers(#[trigger] self.spec_blocks()[b], gs - 1);
            let bj = self.spec_blocks()[b];
            lemma_mod64_sum(bj.addr - HEAP_START_ADDR, bj.size as int);
            lemma_mod64_sum(addr - HEAP_START_ADDR, 64);
            lemma_aligned_step(bj.addr + bj.size, addr - 64);
            assert(bj.addr + bj.size == addr);
            if b + 1 < self.spec_blocks().len() {
                self.lemma_blocks_ordered(b, self.spec_blocks().len() - 1);
                assert(false);
            }
        } else {
            assert forall|j: int|
                0 <= j < self.spec_blocks().len() implies (#[trigger] self.spec_blocks()[j]).addr
                + self.spec_blocks()[j].size < addr by {
                let bj = self.spec_blocks()[j];
                if bj.addr + bj.size == addr {
                    lemma_aligned_gap(bj.addr as int, addr);
                    assert(covers(bj, gs - 1));
                    assert(self.in_free_list(gs - 1));
                    assert(0 <= gs - 1 < self.granule_count());
                    assert(false);
                }
            }
        }
    }

    /// The bookkeeping half of one heap expansion: extends the bitmask by
    /// the granules the new space covers (all starting free), advances the
    /// high-water mark, and hands the new byte range to the free list,
    /// merging it with the block just below the old mark when the bit
    /// before the mark shows that block is free.
    ///
    /// The caller has already mapped the new frames at the old mark and one
    /// more frame for the mask storage; mapping failures surface there, and
    /// this function is only reached when all of them succeeded.
    pub fn grow(&mut self)
        requires
            old(self).wf(),
            old(self).granule_count() + HEAP_EXPANSION_GRANULES <= HEAP_MASK_MAX_BITS,
        ensures
            final(self).wf(),
            final(self).spec_size() == old(self).spec_size() + HEAP_EXPANSION_BYTES,
            final(self).granule_count() == old(self).granule_count() + HEAP_EXPANSION_GRANULES,
            forall|g: int|
                0 <= g < old(self).granule_count() ==> #[trigger] final(self).free_granule(g)
                    == old(self).free_granule(g),
            forall|g: int|
                old(self).granule_count() <= g < final(self).granule_count()
                    ==> #[trigger] final(self).free_granule(g),
            final(self).spec_blocks().len() >= 1,
    {
        proof {
            lemma_heap_size_bound(*old(self));
        }
        let ghost pre = *self;
        let addr = self.boundry_addr();
        let gs = granule_of(addr);
        proof {
            assert(64 * gs == pre.spec_size());
            assert(gs == pre.granule_count());
            pre.lemma_top_block(addr as int, gs as int);
        }
        self.mask.grow(HEAP_EXPANSION_GRANULES);
        self.size = self.size + HEAP_EXPANSION_BYTES;
        let can_merge = gs > 0 && !self.mask.is_set(gs - 1);
        let n = self.blocks.len();
        if can_merge {
            let b = self.blocks[n - 1];
            self.blocks.set(n - 1, FreeBlock { addr: b.addr, size: b.size + HEAP_EXPANSION_BYTES });
        } else {
            self.blocks.push(FreeBlock { addr, size: HEAP_EXPANSION_BYTES });
        }
        proof {
            let post = *self;
            let ghost nlen = post.spec_blocks().len() as int;
            assert(64 * post.granule_count() == post.spec_size());
            if can_merge {
                let b = pre.spec_blocks()[n - 1];
                lemma_mod64_sum(b.size as int, HEAP_EXPANSION_BYTES as int);
                assert(post.spec_blocks() == pre.spec_blocks().update(
                    n - 1,
                    (FreeBlock { addr: b.addr, size: (b.size + HEAP_EXPANSION_BYTES) as u64 }),
                ));
            } else {
                assert(post.spec_blocks() == pre.spec_blocks().push(
                    FreeBlock { addr, size: HEAP_EXPANSION_BYTES },
                ));
                assert(forall|j: int|
                    0 <= j < pre.spec_blocks().len() ==> #[trigger] post.spec_blocks()[j]
                        == pre.spec_blocks()[j]);
            }
            assert forall|j: int|
                0 <= j < nlen implies post.block_wf(#[trigger] post.spec_blocks()[j]) by {
                if j < nlen - 1 || (can_merge && nlen >= 2) || !can_merge {
                }
                if j < pre.spec_blocks().len() {
                    assert(pre.block_wf(pre.spec_blocks()[j]));
                }
            }
            assert forall|j: int|
                0 <= j && j + 1 < nlen implies (#[trigger] post.spec_blocks()[j]).addr
                + post.spec_blocks()[j].size < post.spec_blocks()[j + 1].addr by {
                if can_merge || j + 1 < pre.spec_blocks().len() {
                    assert(pre.spec_blocks()[j].addr + pre.spec_blocks()[j].size
                        < pre.spec_blocks()[j + 1].addr);
                } else {
                    assert(post.spec_blocks()[j] == pre.spec_blocks()[j]);
                    assert(pre.spec_blocks()[j].addr + pre.spec_blocks()[j].size < addr);
                }
            }
            assert forall|g: int| 0 <= g < post.granule_count() implies (post.free_granule(g)
                <==> post.in_free_list(g)) by {
                let last = post.spec_blocks()[nlen - 1];
                if g < pre.granule_count() {
                    assert(post.free_granule(g) == pre.free_granule(g));
                    assert(pre.free_granule(g) <==> pre.in_free_list(g));
                    if pre.in_free_list(g) {
                        let j = choose|j: int|
                            0 <= j < pre.spec_blocks().len() && covers(
                                #[trigger] pre.spec_blocks()[j],
                                g,
                            );
                        if can_merge && j == n - 1 {
                            assert(covers(post.spec_blocks()[j], g));
                        } else {
                            assert(covers(post.spec_blocks()[j], g));
                        }
                        assert(post.in_free_list(g));
                    }
                    if post.in_free_list(g) {
                        let j = choose|j: int|
                            0 <= j < post.spec_blocks().len() && covers(
                                #[trigger] post.spec_blocks()[j],
                                g,
                            );
                        if j < pre.spec_blocks().len() && (!can_merge || j != n - 1) {
                            assert(covers(pre.spec_blocks()[j], g));
                            assert(pre.in_free_list(g));
                        } else if can_merge {
                            assert(covers(pre.spec_blocks()[n - 1], g) || gran_addr(g) >= addr);
                            assert(pre.in_free_list(g));
                        } else {
                            assert(gran_addr(g) >= addr);
                            assert(false);
                        }
                    }
                } else {
                    assert(post.free_granule(g));
                    assert(covers(last, g));
                    assert(post.in_free_list(g));
                }
            }
            assert(post.wf());
        }
    }

    /// The allocator-facing deallocate entry point: exactly the merge-insert
    /// routine, applied to a range that `alloc` handed out earlier.
    pub fn dealloc(&mut self, addr: u64, size: u64)
        requires
            old(self).wf(),
            addr >= HEAP_START_ADDR,
            (addr - HEAP_START_ADDR) % 64 == 0,
            size % 64 == 0,
            size >= 64,
            addr + size <= HEAP_START_ADDR + old(self).spec_size(),
            forall|g: int|
                0 <= g < old(self).granule_count() && addr <= gran_addr(g) < addr + size ==> !old(
                    self,
                ).free_granule(g),
        ensures
            final(self).wf(),
            final(self).spec_size() == old(self).spec_size(),
            final(self).granule_count() == old(self).granule_count(),
            dealloc_step(*old(self), *final(self), addr, size),
    {
        self.ins_merg_free_block(addr, size);
    }

    /// Current heap size in bytes.
    pub fn size(&self) -> (r: u64)
        ensures
            r == self.spec_size(),
    {
        self.size
    }

    /// Number of blocks on the free list.
    pub fn free_block_count(&self) -> (r: usize)
        ensures
            r == self.spec_blocks().len(),
    {
        self.blocks.len()
    }

    /// Reads granule `g`'s coalescing bit: set when the granule belongs to
    /// a live allocation, clear when it lies in a free block.
    pub fn granule_is_set(&self, g: u64) -> (r: bool)
        requires
            self.wf(),
            g < self.granule_count(),
        ensures
            r == !self.free_granule(g as int),
    {
        self.mask.is_set(g)
    }

    /// Rounds a requested byte count up to a whole number of granules and
    /// pairs it with the fixed 8-byte alignment every heap block satisfies.
    pub fn size_align(size: u64) -> (r: (u64, u64))
        requires
            size + 63 <= u64::MAX,
        ensures
            r.0 == spec_size_align(size as int),
            r.1 == 8,
    {
        let t = size + 63;
        proof {
            assert(t >> 6u64 << 6u64 == t - t % 64) by (bit_vector);
            lemma_fundamental_div_mod(t as int, 64);
        }
        ((t >> HEAP_BLOCK_SIZE_BW) << HEAP_BLOCK_SIZE_BW, 8)
    }
}

/// No overlap, general form: a block handed out by an allocation is
/// disjoint from every range that is live when the allocation happens,
/// because the returned range is drawn wholly from the free set and a live
/// range has no free granule.
pub proof fn lemma_alloc_disjoint_from_live(
    h0: HeapAllocator,
    h1: HeapAllocator,
    a: u64,
    s: u64,
    b: u64,
    t: u64,
)
    requires
        h0.wf(),
        s % 64 == 0,
        s >= 64,
        b >= HEAP_START_ADDR,
        (b - HEAP_START_ADDR) % 64 == 0,
        t % 64 == 0,
        t >= 64,
        b + t <= HEAP_START_ADDR + h0.spec_size(),
        alloc_step(h0, h1, a, s),
        forall|g: int| b <= gran_addr(g) < b + t ==> !h0.free_granule(g),
    ensures
        a + s <= b || b + t <= a,
{
    if !(a + s <= b || b + t <= a) {
        let m: int = if a >= b {
            a as int
        } else {
            b as int
        };
        lemma_fundamental_div_mod(m - HEAP_START_ADDR, 64);
        let g = (m - HEAP_START_ADDR) / 64;
        assert(gran_addr(g) == m) by {
            lemma_mod64_sum(a - HEAP_START_ADDR, b - HEAP_START_ADDR);
        }
        assert(a <= gran_addr(g) < a + s);
        assert(b <= gran_addr(g) < b + t);
        assert(h0.free_granule(g));
        assert(!h0.free_granule(g));
        assert(false);
    }
}

/// Live ranges stay live across an allocation: allocating only removes
/// granules from the free set.
pub proof fn lemma_alloc_preserves_live(h0: HeapAllocator, h1: HeapAllocator, a: u64, s: u64, g: int)
    requires
        alloc_step(h0, h1, a, s),
        0 <= g < h0.granule_count(),
        !h0.free_granule(g),
    ensures
        !h1.free_granule(g),
{
}

/// Live ranges outside the freed range stay live across a deallocation.
pub proof fn lemma_dealloc_preserves_live(
    h0: HeapAllocator,
    h1: HeapAllocator,
    a: u64,
    s: u64,
    g: int,
)
    requires
        dealloc_step(h0, h1, a, s),
        0 <= g < h0.granule_count(),
        !h0.free_granule(g),
        !(a <= gran_addr(g) < a + s),
    ensures
        !h1.free_granule(g),
{
}

/// No overlap: blocks handed out by two successive allocations, with the
/// first not freed in between, occupy disjoint byte ranges.  The first
/// allocation removes its range from the free set, and the second draws its
/// range from what is still free.
pub proof fn lemma_no_overlap(
    h0: HeapAllocator,
    h1: HeapAllocator,
    h2: HeapAllocator,
    a1: u64,
    s1: u64,
    a2: u64,
    s2: u64,
)
    requires
        h0.wf(),
        s1 % 64 == 0,
        s1 >= 64,
        s2 % 64 == 0,
        s2 >= 64,
        alloc_step(h0, h1, a1, s1),
        alloc_step(h1, h2, a2, s2),
    ensures
        a1 + s1 <= a2 || a2 + s2 <= a1,
{
    if !(a1 + s1 <= a2 || a2 + s2 <= a1) {
        let m: int = if a1 >= a2 { a1 as int } else { a2 as int };
        lemma_fundamental_div_mod(m - HEAP_START_ADDR, 64);
        let g = (m - HEAP_START_ADDR) / 64;
        assert(gran_addr(g) == m) by {
            lemma_mod64_sum(a1 - HEAP_START_ADDR, a2 - HEAP_START_ADDR);
        }
        assert(a1 <= gran_addr(g) < a1 + s1);
        assert(a2 <= gran_addr(g) < a2 + s2);
        assert(h1.free_granule(g));
        assert(0 <= g < h0.granule_count()) by {
            h0.lemma_mask_wf_bounds();
        }
        assert(!h1.free_granule(g));
        assert(false);
    }
}

/// Round trip: allocating a block and freeing it right back restores the
/// allocator's free set exactly, so the allocator is indistinguishable from
/// before in total free bytes and in what later allocations can be served.
pub proof fn lemma_round_trip(
    h0: HeapAllocator,
    h1: HeapAllocator,
    h2: HeapAllocator,
    a: u64,
    s: u64,
)
    requires
        alloc_step(h0, h1, a, s),
        dealloc_step(h1, h2, a, s),
    ensures
        h2.spec_size() == h0.spec_size(),
        h2.granule_count() == h0.granule_count(),
        forall|g: int|
            0 <= g < h0.granule_count() ==> #[trigger] h2.free_granule(g) == h0.free_granule(g),
{
}

/// A granule in the gap between two consecutive blocks (or before the
/// first block, or after the last) is not free.
proof fn lemma_gap_not_free(h: HeapAllocator, i: int, g: int)
    requires
        h.wf(),
        0 <= i <= h.spec_blocks().len(),
        0 <= g < h.granule_count(),
        i >= 1 ==> gran_addr(g) >= h.spec_blocks()[i - 1].addr + h.spec_blocks()[i - 1].size,
        i < h.spec_blocks().len() ==> gran_addr(g) < h.spec_blocks()[i].addr,
    ensures
        !h.free_granule(g),
{
    if h.free_granule(g) {
        assert(h.in_free_list(g));
        let m = choose|m: int|
            0 <= m < h.spec_blocks().len() && covers(#[trigger] h.spec_blocks()[m], g);
        if m < i {
            if m < i - 1 {
                h.lemma_blocks_ordered(m, i - 1);
            }
            assert(false);
        } else {
            if m > i {
                h.lemma_blocks_ordered(i, m);
            }
            assert(false);
        }
    }
}

/// With equal free sets and equal prefixes, a block cannot reach past its
/// twin: its bytes are free on one side, so they must be covered on the
/// other, and only the twin can cover them.
proof fn lemma_block_end_le(x: HeapAllocator, y: HeapAllocator, i: int)
    requires
        x.wf(),
        y.wf(),
        x.spec_size() == y.spec_size(),
        x.granule_count() == y.granule_count(),
        forall|g: int|
            0 <= g < x.granule_count() ==> (x.free_granule(g) <==> y.free_granule(g)),
        0 <= i < x.spec_blocks().len(),
        i < y.spec_blocks().len(),
        y.spec_blocks()[i].addr == x.spec_blocks()[i].addr,
    ensures
        y.spec_blocks()[i].addr + y.spec_blocks()[i].size <= x.spec_blocks()[i].addr
            + x.spec_blocks()[i].size,
{
    let bx = x.spec_blocks()[i];
    let by = y.spec_blocks()[i];
    assert(x.block_wf(bx));
    assert(y.block_wf(by));
    if by.addr + by.size > bx.addr + bx.size {
        lemma_fundamental_div_mod(bx.addr + bx.size - HEAP_START_ADDR, 64);
        lemma_mod64_sum(bx.addr - HEAP_START_ADDR, bx.size as int);
        let g = (bx.addr + bx.size - HEAP_START_ADDR) / 64;
        assert(gran_addr(g) == bx.addr + bx.size);
        assert(covers(by, g));
        assert(y.in_free_list(g));
        assert(0 <= g < y.granule_count()) by {
            assert(64 * y.granule_count() == y.spec_size());
        }
        assert(x.free_granule(g));
        assert(x.in_free_list(g));
        let m = choose|m: int|
            0 <= m < x.spec_blocks().len() && covers(#[trigger] x.spec_blocks()[m], g);
        if m < i {
            x.lemma_blocks_ordered(m, i);
            assert(false);
        } else if m == i {
            assert(false);
        } else {
            x.lemma_blocks_ordered(i, m);
            assert(false);
        }
    }
}

/// With equal free sets and equal prefixes, the next block must begin at
/// the same address on both sides: a free granule below the twin's start
/// would have to be covered in the gap.
proof fn lemma_block_addr_matches(x: HeapAllocator, y: HeapAllocator, i: int)
    requires
        x.wf(),
        y.wf(),
        x.spec_size() == y.spec_size(),
        x.granule_count() == y.granule_count(),
        forall|g: int|
            0 <= g < x.granule_count() ==> (x.free_granule(g) <==> y.free_granule(g)),
        0 <= i < x.spec_blocks().len(),
        forall|j: int|
            0 <= j < i ==> #[trigger] x.spec_blocks()[j] == y.spec_blocks()[j],
    ensures
        i < y.spec_blocks().len(),
        y.spec_blocks()[i].addr <= x.spec_blocks()[i].addr,
{
    let bx = x.spec_blocks()[i];
    assert(x.block_wf(bx));
    lemma_fundamental_div_mod(bx.addr - HEAP_START_ADDR, 64);
    let gx = (bx.addr - HEAP_START_ADDR) / 64;
    assert(gran_addr(gx) == bx.addr);
    assert(covers(bx, gx)) by {
        assert(bx.size >= 64);
    }
    assert(x.in_free_list(gx));
    assert(0 <= gx < x.granule_count()) by {
        assert(64 * x.granule_count() == x.spec_size());
    }
    assert(y.free_granule(gx));
    assert(y.in_free_list(gx));
    let k = choose|k: int|
        0 <= k < y.spec_blocks().len() && covers(#[trigger] y.spec_blocks()[k], gx);
    // k is not below i: the prefix blocks end before this granule.
    if k < i {
        assert(y.spec_blocks()[k] == x.spec_blocks()[k]);
        if k < i - 1 {
            x.lemma_blocks_ordered(k, i);
        } else {
            x.lemma_blocks_ordered(i - 1, i);
        }
        assert(false);
    }
    // k's start cannot be below block i's start: a free granule in x's gap
    // between block i-1 and block i would contradict the gap lemma.
    let by = y.spec_blocks()[k];
    if by.addr < bx.addr {
        assert(y.block_wf(by));
        lemma_fundamental_div_mod(by.addr - HEAP_START_ADDR, 64);
        let gy = (by.addr - HEAP_START_ADDR) / 64;
        assert(gran_addr(gy) == by.addr);
        assert(covers(by, gy)) by {
            assert(by.size >= 64);
        }
        assert(y.in_free_list(gy));
        assert(0 <= gy < x.granule_count()) by {
            assert(64 * x.granule_count() == x.spec_size());
        }
        assert(x.free_granule(gy));
        if i >= 1 {
            // The granule sits above the shared prefix: block i-1 of y ends
            // below the start of block k >= i.
            if k == i - 1 {
                assert(false);
            }
            y.lemma_blocks_ordered(i - 1, k);
            assert(gran_addr(gy) >= x.spec_blocks()[i - 1].addr + x.spec_blocks()[i - 1].size);
        }
        lemma_gap_not_free(x, i, gy);
        assert(false);
    }
    // So y's covering block starts at or above bx.addr, yet covers gx whose
    // address is bx.addr: it starts exactly there, and every earlier y block
    // ends below it, so i is within y's list.
    assert(by.addr == bx.addr);
    assert(k >= i);
    assert(i < y.spec_blocks().len());
    if k > i {
        y.lemma_blocks_ordered(i, k);
        assert(y.spec_blocks()[i].addr < by.addr);
    } else {
        assert(y.spec_blocks()[i].addr == bx.addr);
    }
}

/// Round trip, behavioral form: the free list is determined by the free
/// set.  Two well-formed allocators of the same heap size whose granules
/// are free in exactly the same places have identical free lists, so every
/// later allocation is served identically.
pub proof fn lemma_blocks_determined(x: HeapAllocator, y: HeapAllocator)
    requires
        x.wf(),
        y.wf(),
        x.spec_size() == y.spec_size(),
        x.granule_count() == y.granule_count(),
        forall|g: int|
            0 <= g < x.granule_count() ==> (x.free_granule(g) <==> y.free_granule(g)),
    ensures
        x.spec_blocks() == y.spec_blocks(),
{
    let n = if x.spec_blocks().len() <= y.spec_blocks().len() {
        x.spec_blocks().len() as int
    } else {
        y.spec_blocks().len() as int
    };
    lemma_blocks_match_prefix(x, y, n);
    assert forall|g: int|
        0 <= g < y.granule_count() implies (y.free_granule(g) <==> x.free_granule(g)) by {
        assert(x.free_granule(g) <==> y.free_granule(g));
    }
    if x.spec_blocks().len() > n {
        lemma_block_addr_matches(x, y, n);
        assert(false);
    }
    if y.spec_blocks().len() > n {
        lemma_block_addr_matches(y, x, n);
        assert(false);
    }
    assert(x.spec_blocks() =~= y.spec_blocks());
}

/// The first `n` blocks agree, by induction along the list.
proof fn lemma_blocks_match_prefix(x: HeapAllocator, y: HeapAllocator, n: int)
    requires
        x.wf(),
        y.wf(),
        x.spec_size() == y.spec_size(),
        x.granule_count() == y.granule_count(),
        forall|g: int|
            0 <= g < x.granule_count() ==> (x.free_granule(g) <==> y.free_granule(g)),
        0 <= n <= x.spec_blocks().len(),
        n <= y.spec_blocks().len(),
    ensures
        forall|j: int| 0 <= j < n ==> #[trigger] x.spec_blocks()[j] == y.spec_blocks()[j],
    decreases n,
{
    if n > 0 {
        lemma_blocks_match_prefix(x, y, n - 1);
        let i = n - 1;
        assert forall|g: int|
            0 <= g < y.granule_count() implies (y.free_granule(g) <==> x.free_granule(g)) by {
            assert(x.free_granule(g) <==> y.free_granule(g));
        }
        lemma_block_addr_matches(x, y, i);
        lemma_block_addr_matches(y, x, i);
        assert(x.spec_blocks()[i].addr == y.spec_blocks()[i].addr);
        lemma_block_end_le(x, y, i);
        lemma_block_end_le(y, x, i);
        assert(x.spec_blocks()[i].size == y.spec_blocks()[i].size);
        assert(x.spec_blocks()[i] == y.spec_blocks()[i]);
    }
}

/// Bitmask/free-list consistency: under the invariant a granule's bitmask
/// bit is clear exactly when the granule lies within some block reachable
/// from the free-list head.
pub proof fn lemma_mask_free_list_consistent(h: HeapAllocator, g: int)
    requires
        h.wf(),
        0 <= g < h.granule_count(),
    ensures
        h.free_granule(g) <==> h.in_free_list(g),
{
}

/// A block that covers the first granule of an all-free granule run covers
/// the whole run: free blocks are never adjacent, so a contiguous free range
/// cannot straddle two of them.
proof fn lemma_block_covers_run(h: HeapAllocator, i: int, g: int, ge: int)
    requires
        h.wf(),
        0 <= i < h.spec_blocks().len(),
        covers(h.spec_blocks()[i], g),
        g < ge <= h.granule_count(),
        forall|g2: int| g <= g2 < ge ==> #[trigger] h.free_granule(g2),
    ensures
        covers(h.spec_blocks()[i], ge - 1),
    decreases ge - g,
{
    let b = h.spec_blocks()[i];
    if g + 1 < ge {
        if b.addr + b.size <= gran_addr(g + 1) {
            lemma_mod64_sum(b.addr - HEAP_START_ADDR, b.size as int);
            lemma_mod64_sum(gran_addr(g) - HEAP_START_ADDR, 64);
            lemma_aligned_step(b.addr + b.size, gran_addr(g));
            assert(b.addr + b.size == gran_addr(g + 1));
            assert(h.free_granule(g + 1));
            assert(h.in_free_list(g + 1));
            let j = choose|j: int|
                0 <= j < h.spec_blocks().len() && covers(#[trigger] h.spec_blocks()[j], g + 1);
            if j < i {
                h.lemma_blocks_ordered(j, i);
                assert(false);
            } else if j > i {
                h.lemma_blocks_ordered(i, j);
                assert(false);
            }
            assert(false);
        }
        lemma_block_covers_run(h, i, g + 1, ge);
    }
}

/// A contiguous, granule-aligned byte range whose granules are all free
/// lies inside a single free block, which is therefore at least as large as
/// the range.
pub proof fn lemma_free_range_in_one_block(h: HeapAllocator, a: u64, len: u64)
    requires
        h.wf(),
        a >= HEAP_START_ADDR,
        (a - HEAP_START_ADDR) % 64 == 0,
        len % 64 == 0,
        len >= 64,
        a + len <= HEAP_START_ADDR + h.spec_size(),
        forall|g: int| a <= gran_addr(g) < a + len ==> #[trigger] h.free_granule(g),
    ensures
        exists|i: int|
            0 <= i < h.spec_blocks().len() && (#[trigger] h.spec_blocks()[i]).addr <= a && a + len
                <= h.spec_blocks()[i].addr + h.spec_blocks()[i].size,
{
    lemma_fundamental_div_mod(a - HEAP_START_ADDR, 64);
    let gs = (a - HEAP_START_ADDR) / 64;
    lemma_mod64_sum(a - HEAP_START_ADDR, len as int);
    lemma_fundamental_div_mod(a + len - HEAP_START_ADDR, 64);
    let ge = (a + len - HEAP_START_ADDR) / 64;
    assert(gran_addr(gs) == a);
    assert(gran_addr(ge) == a + len);
    assert(h.free_granule(gs)) by {
        assert(a <= gran_addr(gs) < a + len);
    }
    assert(0 <= gs < h.granule_count());
    assert(h.in_free_list(gs));
    let i = choose|i: int|
        0 <= i < h.spec_blocks().len() && covers(#[trigger] h.spec_blocks()[i], gs);
    assert forall|g2: int| gs <= g2 < ge implies #[trigger] h.free_granule(g2) by {
        assert(a <= gran_addr(g2) < a + len);
    }
    lemma_block_covers_run(h, i, gs, ge);
    let b = h.spec_blocks()[i];
    assert(covers(b, ge - 1));
    assert(b.addr <= gran_addr(gs) == a);
    assert(b.addr + b.size > gran_addr(ge - 1)) by {
        assert(covers(b, ge - 1));
    }
    lemma_mod64_sum(b.addr - HEAP_START_ADDR, b.size as int);
    lemma_mod64_sum(gran_addr(ge - 1) - HEAP_START_ADDR, 64);
    lemma_aligned_gap(gran_addr(ge - 1), b.addr + b.size);
    assert(a + len <= b.addr + b.size);
}

/// Coalescing correctness: freeing two adjacent previously-allocated
/// ranges, in either order, leaves the free list with a single block that
/// holds their union, so a following request for their combined size is
/// served from the list without growing the heap.
pub proof fn lemma_coalescing(
    h0: HeapAllocator,
    h1: HeapAllocator,
    h2: HeapAllocator,
    a1: u64,
    s1: u64,
    a2: u64,
    s2: u64,
)
    requires
        h0.wf(),
        h2.wf(),
        a1 >= HEAP_START_ADDR,
        (a1 - HEAP_START_ADDR) % 64 == 0,
        a2 >= HEAP_START_ADDR,
        (a2 - HEAP_START_ADDR) % 64 == 0,
        s1 % 64 == 0,
        s1 >= 64,
        s2 % 64 == 0,
        s2 >= 64,
        a2 == a1 + s1 || a1 == a2 + s2,
        dealloc_step(h0, h1, a1, s1),
        dealloc_step(h1, h2, a2, s2),
        a1 + s1 <= HEAP_START_ADDR + h0.spec_size(),
        a2 + s2 <= HEAP_START_ADDR + h0.spec_size(),
    ensures
        exists|i: int|
            0 <= i < h2.spec_blocks().len() && (#[trigger] h2.spec_blocks()[i]).size >= s1 + s2,
{
    h0.lemma_mask_wf_bounds();
    assert(64 * h0.granule_count() == h0.spec_size());
    let a: u64 = if a1 <= a2 { a1 } else { a2 };
    let len = (s1 + s2) as u64;
    assert(len == s1 + s2);
    assert(a + len <= HEAP_START_ADDR + h2.spec_size());
    lemma_mod64_sum(s1 as int, s2 as int);
    assert((a - HEAP_START_ADDR) % 64 == 0) by {
        lemma_mod64_sum(a1 - HEAP_START_ADDR, s1 as int);
    }
    assert(h0.granule_count() == h2.granule_count());
    assert forall|g: int| a <= gran_addr(g) < a + len implies #[trigger] h2.free_granule(g) by {
        assert(64 * g >= a - HEAP_START_ADDR);
        assert(g >= 0);
        assert(gran_addr(g) < HEAP_START_ADDR + h0.spec_size());
        assert(64 * g < 64 * h0.granule_count());
        assert(g < h0.granule_count());
        if a1 <= gran_addr(g) < a1 + s1 {
            assert(h1.free_granule(g));
            assert(h2.free_granule(g));
        } else {
            assert(a2 <= gran_addr(g) < a2 + s2);
        }
    }
    lemma_free_range_in_one_block(h2, a, len);
    let i = choose|i: int|
        0 <= i < h2.spec_blocks().len() && (#[trigger] h2.spec_blocks()[i]).addr <= a && a + len
            <= h2.spec_blocks()[i].addr + h2.spec_blocks()[i].size;
    assert(h2.spec_blocks()[i].size >= s1 + s2);
}

/// A request of `size` bytes occupies `size` rounded up to the next
/// multiple of the granule size.
pub open spec fn spec_size_align(size: int) -> int {
    ((size + 63) / 64) * 64
}

/// Sums and differences of granule-aligned quantities stay aligned.
proof fn lemma_mod64_sum(a: int, b: int)
    requires
        a % 64 == 0,
        b % 64 == 0,
    ensures
        (a + b) % 64 == 0,
        (a - b) % 64 == 0,
{
    lemma_fundamental_div_mod(a, 64);
    lemma_fundamental_div_mod(b, 64);
    vstd::arithmetic::div_mod::lemma_fundamental_div_mod_converse(a + b, 64, a / 64 + b / 64, 0);
    vstd::arithmetic::div_mod::lemma_fundamental_div_mod_converse(a - b, 64, a / 64 - b / 64, 0);
}

/// Two distinct granule-aligned addresses are at least a granule apart.
proof fn lemma_aligned_gap(a: int, b: int)
    requires
        (a - HEAP_START_ADDR) % 64 == 0,
        (b - HEAP_START_ADDR) % 64 == 0,
        a < b,
    ensures
        a + 64 <= b,
{
    lemma_mod64_sum(b - HEAP_START_ADDR, a - HEAP_START_ADDR);
    lemma_fundamental_div_mod(b - a, 64);
}

/// Two granule-aligned addresses within one granule of each other are a
/// whole granule apart.
proof fn lemma_aligned_step(x: int, lo: int)
    requires
        (x - HEAP_START_ADDR) % 64 == 0,
        (lo - HEAP_START_ADDR) % 64 == 0,
        lo < x <= lo + 64,
    ensures
        x == lo + 64,
{
    lemma_mod64_sum(x - HEAP_START_ADDR, lo - HEAP_START_ADDR);
    lemma_fundamental_div_mod(x - lo, 64);
}

/// Under the invariant the heap size fits comfortably below the address
/// space: the mask bounds it.
proof fn lemma_heap_size_bound(h: HeapAllocator)
    requires
        h.wf(),
    ensures
        h.spec_size() <= 64 * HEAP_MASK_MAX_BITS,
        HEAP_START_ADDR + h.spec_size() <= u64::MAX,
{
    h.lemma_mask_wf_bounds();
}

} // verus!
