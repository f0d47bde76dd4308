//! The physical frame allocator: free physical memory as an address-ordered
//! list of frame-aligned runs, held in a fixed-capacity array of slots so
//! that no dynamic memory is needed before the heap exists.  A run's links
//! are slot indices into this array, not addresses; freed slots are recycled
//! through a small free-index stack.
//!
//! A run records its base address and its length in frames.  The allocator
//! is configured with its frame size and with the reserved low-memory
//! boundary; boot extents below the boundary are clipped and extents smaller
//! than one frame are dropped.

use vstd::arithmetic::div_mod::lemma_fundamental_div_mod;
use vstd::arithmetic::mul::{
    lemma_mul_inequality, lemma_mul_is_commutative, lemma_mul_is_distributive_add,
    lemma_mul_is_distributive_add_other_way, lemma_mul_is_distributive_sub,
    lemma_mul_is_distributive_sub_other_way,
};
use vstd::pervasive::VecAdditionalExecFns;
use vstd::prelude::*;

use crate::kernel_const::{
    spec_align_down, spec_align_up, FRAME_SIZE, FRAME_SIZE_BIT_WIDTH, MEMORY_RESERVED_BELOW,
};

verus! {

/// Number of run slots the allocator can hold at once.
pub const NUMBER_OF_FREE_BLOCK: u64 = 1024;

/// Slot-index sentinel: this run has no successor, or the list is empty.
pub const NO_NEXT: u64 = 1024;

/// Highest physical address the allocator will track; keeps every address
/// computation inside `u64`.
pub const MAX_PHYS_ADDR: u64 = 0x1000000000000;

/// One maximal run of contiguous, unused, frame-aligned physical memory.
#[derive(Clone, Copy, Debug, PartialEq, Eq, Structural)]
pub struct UnusedBlock {
    /// Base address of the run.
    pub addr: u64,
    /// Length of the run in frames; always at least one.
    pub size: u64,
    /// Slot index of the next run in address order, or `NO_NEXT`.
    pub next: u64,
}

/// One entry of the boot-time memory map.
#[derive(Clone, Copy, Debug, PartialEq, Eq, Structural)]
pub struct MemoryMapItem {
    /// Base physical address of the region.
    pub addr: u64,
    /// Length of the region in bytes.
    pub size: u64,
    /// Region type flags from the firmware.
    pub flags: u32,
    /// Extended flags from the firmware.
    pub ext_flags: u32,
}

/// The boot-time memory map: a length-prefixed array of entries.
pub struct MemoryMapBuffer {
    /// Number of valid entries.
    pub len: u16,
    /// The entries; only the first `len` are meaningful.
    pub items: Vec<MemoryMapItem>,
}

/// The physical frame allocator.
pub struct PhysFrameAllocator {
    blocks: Vec<Option<UnusedBlock>>,
    start: u64,
    free_slots: Vec<u64>,
    frame_size: u64,
    reserved_below: u64,
    order: Ghost<Seq<int>>,
}

impl PhysFrameAllocator {
    /// Size in bytes of the frames this allocator hands out.
    pub closed spec fn spec_frame_size(self) -> u64 {
        self.frame_size
    }

    /// The reserved low-memory boundary this allocator clips extents to.
    pub closed spec fn spec_reserved_below(self) -> u64 {
        self.reserved_below
    }

    /// The free runs in address order.
    pub closed spec fn spec_runs(self) -> Seq<UnusedBlock> {
        Seq::new(self.order@.len(), |k: int| self.blocks@[self.order@[k]]->0)
    }

    /// One past the last byte of a run.
    pub open spec fn run_end(self, b: UnusedBlock) -> int {
        b.addr + b.size * self.spec_frame_size()
    }

    /// A single run is well formed: frame-aligned, at least one frame, and
    /// inside the tracked physical range.
    pub open spec fn run_wf(self, b: UnusedBlock) -> bool {
        &&& b.addr as int % self.spec_frame_size() as int == 0
        &&& b.size >= 1
        &&& self.run_end(b) <= MAX_PHYS_ADDR
    }

    /// Physical byte `x` lies in some free run.
    pub open spec fn free_byte(self, x: int) -> bool {
        exists|k: int|
            0 <= k < self.spec_runs().len() && (#[trigger] self.spec_runs()[k]).addr <= x
                < self.run_end(self.spec_runs()[k])
    }

    /// The free runs as `(base address, frame count)` pairs, in address
    /// order: the observable shape of the run list, without the slot links.
    pub closed spec fn spec_run_pairs(self) -> Seq<(u64, u64)> {
        Seq::new(
            self.spec_runs().len(),
            |k: int| ((self.spec_runs()[k].addr, self.spec_runs()[k].size)),
        )
    }

    /// The slot-arena invariant: the chain of `next` links from `start`
    /// visits exactly the occupied slots, in strictly increasing address
    /// order with no overlap; every other slot is on the free-index stack.
    #[verifier::opaque]
    pub closed spec fn arena_wf(self) -> bool {
        let ord = self.order@;
        let free = self.free_slots@;
        &&& self.blocks@.len() == NUMBER_OF_FREE_BLOCK
        &&& ord.len() + free.len() == NUMBER_OF_FREE_BLOCK
        &&& forall|k: int| 0 <= k < ord.len() ==> 0 <= #[trigger] ord[k] < NUMBER_OF_FREE_BLOCK
        &&& forall|k: int| 0 <= k < ord.len() ==> (#[trigger] self.blocks@[ord[k]]) is Some
        &&& forall|k1: int, k2: int|
            0 <= k1 < k2 < ord.len() ==> #[trigger] ord[k1] != #[trigger] ord[k2]
        &&& forall|k: int|
            0 <= k && k + 1 < ord.len() ==> (#[trigger] self.blocks@[ord[k]])->0.next == ord[k + 1]
        &&& ord.len() > 0 ==> self.blocks@[ord[ord.len() - 1]]->0.next == NO_NEXT
        &&& (if ord.len() > 0 {
            self.start == ord[0]
        } else {
            self.start == NO_NEXT
        })
        &&& forall|m: int| 0 <= m < free.len() ==> 0 <= #[trigger] free[m] < NUMBER_OF_FREE_BLOCK
        &&& forall|m: int| 0 <= m < free.len() ==> (#[trigger] self.blocks@[free[m] as int]) is None
        &&& forall|m1: int, m2: int|
            0 <= m1 < m2 < free.len() ==> #[trigger] free[m1] != #[trigger] free[m2]
    }

    /// The allocator's invariant.
    pub closed spec fn wf(self) -> bool {
        &&& self.arena_wf()
        &&& 1 <= self.frame_size <= MAX_PHYS_ADDR
        &&& forall|k: int|
            0 <= k < self.spec_runs().len() ==> self.run_wf(#[trigger] self.spec_runs()[k])
        &&& forall|k: int|
            0 <= k && k + 1 < self.spec_runs().len() ==> self.run_end(
                #[trigger] self.spec_runs()[k],
            ) <= self.spec_runs()[k + 1].addr
    }

    /// An allocator configured with an explicit frame size and reservation
    /// boundary, with every slot free.
    pub fn new_conf(frame_size: u64, reserved_below: u64) -> (r: PhysFrameAllocator)
        requires
            1 <= frame_size <= MAX_PHYS_ADDR,
        ensures
            r.wf(),
            r.spec_frame_size() == frame_size,
            r.spec_reserved_below() == reserved_below,
            r.spec_run_pairs().len() == 0,
    {
        let mut blocks: Vec<Option<UnusedBlock>> = Vec::new();
        let mut free_slots: Vec<u64> = Vec::new();
        let mut i: u64 = 0;
        while i < NUMBER_OF_FREE_BLOCK
            invariant
                i <= NUMBER_OF_FREE_BLOCK,
                blocks@.len() == i,
                free_slots@.len() == i,
                forall|j: int| 0 <= j < i ==> (#[trigger] blocks@[j]) is None,
                forall|m: int| 0 <= m < i ==> #[trigger] free_slots@[m] == i - 1 - m,
            decreases NUMBER_OF_FREE_BLOCK - i,
        {
            blocks.push(None);
            let ghost pre_free = free_slots@;
            free_slots.insert(0, i);
            proof {
                pre_free.insert_ensures(0, i);
            }
            i = i + 1;
        }
        let r = PhysFrameAllocator {
            blocks,
            start: NO_NEXT,
            free_slots,
            frame_size,
            reserved_below,
            order: Ghost(Seq::empty()),
        };
        proof {
            assert(r.arena_wf()) by {
                reveal(PhysFrameAllocator::arena_wf);
            }
            assert(r.spec_runs() =~= Seq::<UnusedBlock>::empty());
        }
        r
    }

    /// Takes an unused slot off the free-index stack.
    fn next(&mut self) -> (s: u64)
        requires
            old(self).free_slots@.len() > 0,
        ensures
            s == old(self).free_slots@.last(),
            final(self).free_slots@ == old(self).free_slots@.drop_last(),
            final(self).blocks == old(self).blocks,
            final(self).start == old(self).start,
            final(self).order == old(self).order,
            final(self).frame_size == old(self).frame_size,
            final(self).reserved_below == old(self).reserved_below,
    {
        let s = self.free_slots.pop();
        match s {
            Some(v) => v,
            None => vstd::pervasive::unreached(),
        }
    }

    /// Hands out the lowest free frame: the base of the head run.  The
    /// run's base advances by one frame and its count drops by one; a run
    /// that reaches zero frames is unlinked and its slot recycled.  Returns
    /// nothing exactly when no run is left: physical memory is exhausted.
    pub fn allocate_frame(&mut self) -> (r: Option<u64>)
        requires
            old(self).wf(),
        ensures
            final(self).wf(),
            final(self).spec_frame_size() == old(self).spec_frame_size(),
            final(self).spec_reserved_below() == old(self).spec_reserved_below(),
            r is None <==> old(self).spec_run_pairs().len() == 0,
            r is None ==> *final(self) == *old(self),
            r matches Some(a) ==> a == old(self).spec_run_pairs()[0].0 && (
            if old(self).spec_run_pairs()[0].1 == 1 {
                final(self).spec_run_pairs() == old(self).spec_run_pairs().drop_first()
            } else {
                final(self).spec_run_pairs() == old(self).spec_run_pairs().update(
                    0,
                    (((old(self).spec_run_pairs()[0].0 + old(self).spec_frame_size()) as u64, (old(
                        self,
                    ).spec_run_pairs()[0].1 - 1) as u64)),
                )
            }),
    {
        proof {
            reveal(PhysFrameAllocator::arena_wf);
        }
        let ghost pre = *self;
        if self.start == NO_NEXT {
            proof {
                if pre.spec_runs().len() > 0 {
                    assert(0 <= pre.order@[0] < NUMBER_OF_FREE_BLOCK);
                    assert(false);
                }
            }
            return None;
        }
        let s = self.start as usize;
        proof {
            if pre.spec_runs().len() == 0 {
                assert(false);
            }
            assert(pre.order@[0] == self.start);
            assert(pre.blocks@[self.start as int] is Some);
        }
        let block = match self.blocks[s] {
            Some(b) => b,
            None => vstd::pervasive::unreached(),
        };
        proof {
            assert(block == pre.spec_runs()[0]);
            assert(pre.run_wf(block));
            lemma_mul_inequality(1, block.size as int, pre.frame_size as int);
        }
        if block.size == 1 {
            self.blocks.set(s, None);
            self.free_slots.push(self.start);
            self.start = block.next;
            proof {
                self.order@ = pre.order@.drop_first();
            }
            proof {
                let post = *self;
                let ord = pre.order@;
                assert forall|k: int| 0 <= k < post.order@.len() implies #[trigger] post.order@[k]
                    == ord[k + 1] by {}
                assert forall|k: int|
                    0 <= k < post.order@.len() implies (#[trigger] post.blocks@[post.order@[k]])
                    == pre.blocks@[ord[k + 1]] by {
                    assert(ord[k + 1] != ord[0]);
                }
                assert(post.spec_runs() =~= pre.spec_runs().drop_first());
                assert forall|j: int|
                    0 <= j < post.spec_run_pairs().len() implies #[trigger] post.spec_run_pairs()[j]
                    == pre.spec_run_pairs().drop_first()[j] by {}
                assert(post.spec_run_pairs() =~= pre.spec_run_pairs().drop_first());
                assert forall|m: int|
                    0 <= m < post.free_slots@.len() implies (#[trigger] post.blocks@[post.free_slots@[m]
                        as int]) is None by {
                    if m < pre.free_slots@.len() {
                        assert(pre.free_slots@[m] != ord[0]);
                    }
                }
                assert(post.arena_wf());
                assert forall|k: int|
                    0 <= k < post.spec_runs().len() implies post.run_wf(
                    #[trigger] post.spec_runs()[k],
                ) by {
                    assert(post.spec_runs()[k] == pre.spec_runs()[k + 1]);
                    assert(pre.run_wf(pre.spec_runs()[k + 1]));
                }
                assert forall|k: int|
                    0 <= k && k + 1 < post.spec_runs().len() implies post.run_end(
                    #[trigger] post.spec_runs()[k],
                ) <= post.spec_runs()[k + 1].addr by {
                    assert(pre.run_end(pre.spec_runs()[k + 1]) <= pre.spec_runs()[k + 2].addr);
                }
                assert(post.wf());
            }
            Some(block.addr)
        } else {
            let nb = UnusedBlock {
                addr: block.addr + self.frame_size,
                size: block.size - 1,
                next: block.next,
            };
            self.blocks.set(s, Some(nb));
            proof {
                let post = *self;
                let ord = pre.order@;
                vstd::arithmetic::div_mod::lemma_add_mod_noop(
                    block.addr as int,
                    pre.frame_size as int,
                    pre.frame_size as int,
                );
                vstd::arithmetic::div_mod::lemma_mod_self_0(pre.frame_size as int);
                lemma_mul_is_distributive_sub(pre.frame_size as int, block.size as int, 1);
                assert(post.run_end(nb) == pre.run_end(block)) by {
                    assert((block.size - 1) * pre.frame_size as int == block.size
                        * pre.frame_size as int - 1 * pre.frame_size as int) by {
                        lemma_mul_is_distributive_sub_other_way(
                            pre.frame_size as int,
                            block.size as int,
                            1,
                        );
                    }
                }
                assert forall|k: int|
                    0 <= k < post.order@.len() implies (#[trigger] post.blocks@[post.order@[k]])
                    == (if k == 0 {
                    Some(nb)
                } else {
                    pre.blocks@[ord[k]]
                }) by {
                    if k != 0 {
                        assert(ord[k] != ord[0]);
                    }
                }
                assert(post.spec_runs() =~= pre.spec_runs().update(0, nb));
                PhysFrameAllocator::lemma_pairs_update(pre, post, 0, nb);
                assert forall|m: int|
                    0 <= m < post.free_slots@.len() implies (#[trigger] post.blocks@[post.free_slots@[m]
                        as int]) is None by {
                    assert(pre.free_slots@[m] != ord[0]);
                }
                assert(post.arena_wf());
                assert(post.run_wf(nb));
                assert forall|k: int|
                    0 <= k < post.spec_runs().len() implies post.run_wf(
                    #[trigger] post.spec_runs()[k],
                ) by {
                    if k != 0 {
                        assert(post.spec_runs()[k] == pre.spec_runs()[k]);
                        assert(pre.run_wf(pre.spec_runs()[k]));
                    }
                }
                assert forall|k: int|
                    0 <= k && k + 1 < post.spec_runs().len() implies post.run_end(
                    #[trigger] post.spec_runs()[k],
                ) <= post.spec_runs()[k + 1].addr by {
                    assert(pre.run_end(pre.spec_runs()[k]) <= pre.spec_runs()[k + 1].addr);
                    if k == 0 {
                        assert(post.run_end(post.spec_runs()[0]) == pre.run_end(block));
                    }
                }
                assert(post.wf());
            }
            Some(block.addr)
        }
    }

    /// Returns one frame to the allocator: the run it forms is inserted in
    /// address order and merged with an adjacent run where possible.
    pub fn deallocate(&mut self, frame_addr: u64)
        requires
            old(self).wf(),
            frame_addr as int % old(self).spec_frame_size() as int == 0,
            frame_addr + old(self).spec_frame_size() <= MAX_PHYS_ADDR,
            old(self).spec_run_pairs().len() < NUMBER_OF_FREE_BLOCK,
            forall|x: int|
                frame_addr <= x < frame_addr + old(self).spec_frame_size() ==> !old(
                    self,
                ).free_byte(x),
        ensures
            final(self).wf(),
            final(self).spec_frame_size() == old(self).spec_frame_size(),
            final(self).spec_reserved_below() == old(self).spec_reserved_below(),
            final(self).spec_run_pairs() == merge_insert_pairs(
                old(self).spec_frame_size(),
                old(self).spec_run_pairs(),
                frame_addr,
                1,
            ),
            (exists|j: int|
                0 <= j < old(self).spec_run_pairs().len() && ((#[trigger] old(
                    self,
                ).spec_run_pairs()[j]).0 == frame_addr + old(self).spec_frame_size() || pair_end(
                    old(self).spec_frame_size(),
                    old(self).spec_run_pairs()[j],
                ) == frame_addr)) ==> final(self).spec_run_pairs().len() == old(
                self,
            ).spec_run_pairs().len(),
            forall|x: int|
                #[trigger] final(self).free_byte(x) <==> (old(self).free_byte(x) || (frame_addr
                    <= x < frame_addr + old(self).spec_frame_size())),
    {
        let fs = self.frame_size;
        proof {
            vstd::arithmetic::div_mod::lemma_mod_self_0(fs as int);
            lemma_fundamental_div_mod(fs as int, fs as int);
        }
        self.add_aligned_free_block(frame_addr, fs);
    }

    /// Runs are ordered: an earlier run ends at or before a later one
    /// begins, so bases are strictly increasing.
    proof fn lemma_runs_ordered(self, i: int, j: int)
        requires
            self.wf(),
            0 <= i < j < self.spec_runs().len(),
        ensures
            self.run_end(self.spec_runs()[i]) <= self.spec_runs()[j].addr,
            self.spec_runs()[i].addr < self.spec_runs()[j].addr,
        decreases j - i,
    {
        assert(self.run_wf(self.spec_runs()[i]));
        lemma_mul_inequality(1, self.spec_runs()[i].size as int, self.spec_frame_size() as int);
        if i + 1 < j {
            self.lemma_runs_ordered(i + 1, j);
        }
    }

    /// After one run has been replaced by the contiguous union of itself
    /// and the freed range, this carries that shape to the run invariants
    /// and the free-byte description.
    proof fn lemma_merge_shape(
        pre: PhysFrameAllocator,
        post: PhysFrameAllocator,
        pos: int,
        addr: u64,
        size: u64,
    )
        requires
            pre.wf(),
            post.spec_frame_size() == pre.spec_frame_size(),
            post.spec_runs().len() == pre.spec_runs().len(),
            0 <= pos < pre.spec_runs().len(),
            forall|j: int|
                0 <= j < post.spec_runs().len() && j != pos ==> ((#[trigger] post.spec_runs()[j]).addr
                    == pre.spec_runs()[j].addr && post.spec_runs()[j].size
                    == pre.spec_runs()[j].size),
            post.run_wf(post.spec_runs()[pos]),
            post.spec_runs()[pos].addr as int == (if addr < pre.spec_runs()[pos].addr {
                addr as int
            } else {
                pre.spec_runs()[pos].addr as int
            }),
            post.run_end(post.spec_runs()[pos]) == (if addr + size > pre.run_end(
                pre.spec_runs()[pos],
            ) {
                addr + size
            } else {
                pre.run_end(pre.spec_runs()[pos])
            }),
            addr + size == pre.spec_runs()[pos].addr || pre.run_end(pre.spec_runs()[pos])
                == addr,
            pos >= 1 ==> pre.run_end(pre.spec_runs()[pos - 1]) <= post.spec_runs()[pos].addr,
            pos + 1 < pre.spec_runs().len() ==> post.run_end(post.spec_runs()[pos])
                <= pre.spec_runs()[pos + 1].addr,
        ensures
            forall|j: int|
                0 <= j < post.spec_runs().len() ==> post.run_wf(#[trigger] post.spec_runs()[j]),
            forall|j: int|
                0 <= j && j + 1 < post.spec_runs().len() ==> post.run_end(
                    #[trigger] post.spec_runs()[j],
                ) <= post.spec_runs()[j + 1].addr,
            forall|x: int|
                #[trigger] post.free_byte(x) <==> (pre.free_byte(x) || (addr <= x < addr + size)),
    {
        assert forall|j: int|
            0 <= j < post.spec_runs().len() implies post.run_wf(
            #[trigger] post.spec_runs()[j],
        ) by {
            if j != pos {
                assert(pre.run_wf(pre.spec_runs()[j]));
            }
        }
        assert forall|j: int|
            0 <= j && j + 1 < post.spec_runs().len() implies post.run_end(
            #[trigger] post.spec_runs()[j],
        ) <= post.spec_runs()[j + 1].addr by {
            assert(pre.run_end(pre.spec_runs()[j]) <= pre.spec_runs()[j + 1].addr);
        }
        assert forall|x: int|
            #[trigger] post.free_byte(x) <==> (pre.free_byte(x) || (addr <= x < addr + size)) by {
            if post.free_byte(x) {
                let j = choose|j: int|
                    0 <= j < post.spec_runs().len() && (#[trigger] post.spec_runs()[j]).addr <= x
                        < post.run_end(post.spec_runs()[j]);
                if j == pos {
                    assert(pre.spec_runs()[pos].addr <= x < pre.run_end(pre.spec_runs()[pos]) || (
                    addr <= x < addr + size));
                } else {
                    assert(pre.spec_runs()[j].addr <= x < pre.run_end(pre.spec_runs()[j]));
                }
                assert(pre.free_byte(x) || (addr <= x < addr + size));
            }
            if pre.free_byte(x) {
                let j = choose|j: int|
                    0 <= j < pre.spec_runs().len() && (#[trigger] pre.spec_runs()[j]).addr <= x
                        < pre.run_end(pre.spec_runs()[j]);
                assert(post.spec_runs()[j].addr <= x < post.run_end(post.spec_runs()[j]));
                assert(post.free_byte(x));
            }
            if addr <= x < addr + size {
                assert(post.spec_runs()[pos].addr <= x < post.run_end(post.spec_runs()[pos]));
                assert(post.free_byte(x));
            }
        }
    }

    /// Carries an exact run-sequence update to the pair view.
    proof fn lemma_pairs_update(
        pre: PhysFrameAllocator,
        post: PhysFrameAllocator,
        k: int,
        nb: UnusedBlock,
    )
        requires
            0 <= k < pre.spec_runs().len(),
            post.spec_runs() == pre.spec_runs().update(k, nb),
        ensures
            post.spec_run_pairs() == pre.spec_run_pairs().update(k, ((nb.addr, nb.size))),
    {
        let npairs = pre.spec_run_pairs().update(k, ((nb.addr, nb.size)));
        assert forall|j: int|
            0 <= j < post.spec_run_pairs().len() implies #[trigger] post.spec_run_pairs()[j]
            == npairs[j] by {
            if j != k {
                assert(post.spec_runs()[j] == pre.spec_runs()[j]);
            }
        }
        assert(post.spec_run_pairs() =~= npairs);
    }

    /// Grows the run at chain position `k` backward: the inserted range
    /// ends exactly where that run begins, so its header moves down to the
    /// range's start.
    #[verifier::rlimit(100)]
    fn merge_succ(&mut self, cur: u64, Ghost(k): Ghost<int>, addr: u64, size: u64)
        requires
            old(self).wf(),
            0 <= k < old(self).spec_runs().len(),
            cur == old(self).order@[k],
            addr as int % old(self).spec_frame_size() as int == 0,
            size as int % old(self).spec_frame_size() as int == 0,
            size >= old(self).spec_frame_size(),
            addr + size == old(self).spec_runs()[k].addr,
            k >= 1 ==> old(self).run_end(old(self).spec_runs()[k - 1]) <= addr,
        ensures
            final(self).wf(),
            final(self).spec_frame_size() == old(self).spec_frame_size(),
            final(self).spec_reserved_below() == old(self).spec_reserved_below(),
            final(self).spec_runs().len() == old(self).spec_runs().len(),
            final(self).spec_run_pairs() == old(self).spec_run_pairs().update(
                k,
                ((addr, (old(self).spec_run_pairs()[k].1 + size / old(
                    self,
                ).spec_frame_size()) as u64)),
            ),
            forall|x: int|
                #[trigger] final(self).free_byte(x) <==> (old(self).free_byte(x) || (addr <= x
                    < addr + size)),
    {
        proof {
            reveal(PhysFrameAllocator::arena_wf);
        }
        let ghost pre = *self;
        let sf = size / self.frame_size;
        let block = match self.blocks[cur as usize] {
            Some(b) => b,
            None => vstd::pervasive::unreached(),
        };
        proof {
            let fs = pre.frame_size as int;
            assert(block == pre.spec_runs()[k]);
            assert(pre.run_wf(block));
            lemma_fundamental_div_mod(size as int, fs);
            assert(sf * fs == size) by {
                lemma_mul_is_commutative(sf as int, fs);
            }
            assert(block.size <= block.size * fs) by {
                lemma_mul_inequality(1, fs, block.size as int);
                lemma_mul_is_commutative(block.size as int, fs);
            }
            assert(sf <= sf * fs) by {
                lemma_mul_inequality(1, fs, sf as int);
                lemma_mul_is_commutative(sf as int, fs);
            }
        }
        let nb = UnusedBlock { addr, size: block.size + sf, next: block.next };
        self.blocks.set(cur as usize, Some(nb));
        proof {
            let post = *self;
            let ord = pre.order@;
            let fs = pre.frame_size as int;
            assert((block.size + sf) * fs == block.size * fs + sf * fs) by {
                lemma_mul_is_distributive_add_other_way(fs, block.size as int, sf as int);
            }
            assert(post.run_end(nb) == pre.run_end(block));
            assert forall|j: int|
                0 <= j < post.order@.len() implies (#[trigger] post.blocks@[post.order@[j]]) == (
            if j == k {
                Some(nb)
            } else {
                pre.blocks@[ord[j]]
            }) by {
                if j != k {
                    assert(ord[j] != ord[k]);
                }
            }
            assert(post.spec_runs() =~= pre.spec_runs().update(k, nb));
            assert forall|m: int|
                0 <= m < post.free_slots@.len() implies (#[trigger] post.blocks@[post.free_slots@[m]
                    as int]) is None by {
                assert(pre.free_slots@[m] != ord[k]);
            }
            assert(post.arena_wf());
            assert(post.run_wf(nb));
            assert(post.spec_runs()[k] == nb);
            PhysFrameAllocator::lemma_merge_shape(pre, post, k, addr, size);
            assert(post.wf());
            assert(post.spec_runs() == pre.spec_runs().update(k, nb));
            PhysFrameAllocator::lemma_pairs_update(pre, post, k, nb);
        }
    }

    /// Grows the run at chain position `k - 1` forward: the inserted range
    /// begins exactly where that run ends.
    #[verifier::rlimit(100)]
    fn merge_pred(&mut self, prev: u64, Ghost(k): Ghost<int>, addr: u64, size: u64)
        requires
            old(self).wf(),
            1 <= k <= old(self).spec_runs().len(),
            prev == old(self).order@[k - 1],
            size as int % old(self).spec_frame_size() as int == 0,
            size >= old(self).spec_frame_size(),
            addr + size <= MAX_PHYS_ADDR,
            old(self).run_end(old(self).spec_runs()[k - 1]) == addr,
            k < old(self).spec_runs().len() ==> old(self).spec_runs()[k as int].addr >= addr
                + size,
        ensures
            final(self).wf(),
            final(self).spec_frame_size() == old(self).spec_frame_size(),
            final(self).spec_reserved_below() == old(self).spec_reserved_below(),
            final(self).spec_runs().len() == old(self).spec_runs().len(),
            final(self).spec_run_pairs() == old(self).spec_run_pairs().update(
                k - 1,
                ((old(self).spec_run_pairs()[k - 1].0, (old(self).spec_run_pairs()[k - 1].1 + size
                    / old(self).spec_frame_size()) as u64)),
            ),
            forall|x: int|
                #[trigger] final(self).free_byte(x) <==> (old(self).free_byte(x) || (addr <= x
                    < addr + size)),
    {
        proof {
            reveal(PhysFrameAllocator::arena_wf);
        }
        let ghost pre = *self;
        let sf = size / self.frame_size;
        let block = match self.blocks[prev as usize] {
            Some(b) => b,
            None => vstd::pervasive::unreached(),
        };
        proof {
            assert(block == pre.spec_runs()[k - 1]);
            assert(pre.run_wf(block));
            let fs = pre.frame_size as int;
            lemma_fundamental_div_mod(size as int, fs);
            assert(sf * fs == size) by {
                lemma_mul_is_commutative(sf as int, fs);
            }
            assert((block.size + sf) * fs == block.size * fs + sf * fs) by {
                lemma_mul_is_distributive_add_other_way(fs, block.size as int, sf as int);
            }
            assert(block.size <= block.size * fs) by {
                lemma_mul_inequality(1, fs, block.size as int);
                lemma_mul_is_commutative(block.size as int, fs);
            }
            assert(sf <= sf * fs) by {
                lemma_mul_inequality(1, fs, sf as int);
                lemma_mul_is_commutative(sf as int, fs);
            }
        }
        let nb = UnusedBlock { addr: block.addr, size: block.size + sf, next: block.next };
        self.blocks.set(prev as usize, Some(nb));
        proof {
            let post = *self;
            let ord = pre.order@;
            assert(post.run_end(nb) == addr + size);
            assert forall|j: int|
                0 <= j < post.order@.len() implies (#[trigger] post.blocks@[post.order@[j]]) == (
            if j == k - 1 {
                Some(nb)
            } else {
                pre.blocks@[ord[j]]
            }) by {
                if j != k - 1 {
                    assert(ord[j] != ord[k - 1]);
                }
            }
            assert(post.spec_runs() =~= pre.spec_runs().update(k - 1, nb));
            assert forall|m: int|
                0 <= m < post.free_slots@.len() implies (#[trigger] post.blocks@[post.free_slots@[m]
                    as int]) is None by {
                assert(pre.free_slots@[m] != ord[k - 1]);
            }
            assert(post.arena_wf());
            assert(post.run_wf(nb));
            assert(post.spec_runs()[k - 1] == nb);
            PhysFrameAllocator::lemma_merge_shape(pre, post, k - 1, addr, size);
            assert(post.wf());
            assert(post.spec_runs() == pre.spec_runs().update(k - 1, nb));
            PhysFrameAllocator::lemma_pairs_update(pre, post, k - 1, nb);
        }
    }

    /// Once the chain update is done, the run sequence looks like the old
    /// one with the new run spliced in at `k`; this carries that shape to
    /// the run invariants and the free-byte description.
    proof fn lemma_insert_shape(
        pre: PhysFrameAllocator,
        post: PhysFrameAllocator,
        k: int,
        addr: u64,
        sf: u64,
        size: u64,
    )
        requires
            pre.wf(),
            post.spec_frame_size() == pre.spec_frame_size(),
            post.spec_runs().len() == pre.spec_runs().len() + 1,
            0 <= k <= pre.spec_runs().len(),
            sf * pre.spec_frame_size() == size,
            sf >= 1,
            addr as int % pre.spec_frame_size() as int == 0,
            addr + size <= MAX_PHYS_ADDR,
            k >= 1 ==> pre.run_end(pre.spec_runs()[k - 1]) <= addr,
            k < pre.spec_runs().len() ==> pre.spec_runs()[k as int].addr >= addr + size,
            forall|j: int|
                0 <= j < post.spec_runs().len() ==> ((#[trigger] post.spec_runs()[j]).addr == (
                if j == k {
                    addr as int
                } else if j < k {
                    pre.spec_runs()[j].addr as int
                } else {
                    pre.spec_runs()[j - 1].addr as int
                }) && post.spec_runs()[j].size == (if j == k {
                    sf as int
                } else if j < k {
                    pre.spec_runs()[j].size as int
                } else {
                    pre.spec_runs()[j - 1].size as int
                })),
        ensures
            forall|j: int|
                0 <= j < post.spec_runs().len() ==> post.run_wf(#[trigger] post.spec_runs()[j]),
            forall|j: int|
                0 <= j && j + 1 < post.spec_runs().len() ==> post.run_end(
                    #[trigger] post.spec_runs()[j],
                ) <= post.spec_runs()[j + 1].addr,
            forall|x: int|
                #[trigger] post.free_byte(x) <==> (pre.free_byte(x) || (addr <= x < addr + size)),
    {
        assert forall|j: int|
            0 <= j < post.spec_runs().len() implies post.run_wf(
            #[trigger] post.spec_runs()[j],
        ) by {
            if j < k {
                assert(pre.run_wf(pre.spec_runs()[j]));
            } else if j > k {
                assert(pre.run_wf(pre.spec_runs()[j - 1]));
            }
        }
        assert forall|j: int|
            0 <= j && j + 1 < post.spec_runs().len() implies post.run_end(
            #[trigger] post.spec_runs()[j],
        ) <= post.spec_runs()[j + 1].addr by {
            if j + 1 < k {
                assert(pre.run_end(pre.spec_runs()[j]) <= pre.spec_runs()[j + 1].addr);
            } else if j + 1 == k {
                assert(pre.run_end(pre.spec_runs()[j]) <= addr);
            } else if j == k {
            } else {
                assert(pre.run_end(pre.spec_runs()[j - 1]) <= pre.spec_runs()[j].addr);
            }
        }
        assert forall|x: int|
            #[trigger] post.free_byte(x) <==> (pre.free_byte(x) || (addr <= x < addr + size)) by {
            if post.free_byte(x) {
                let j = choose|j: int|
                    0 <= j < post.spec_runs().len() && (#[trigger] post.spec_runs()[j]).addr <= x
                        < post.run_end(post.spec_runs()[j]);
                if j < k {
                    assert(pre.spec_runs()[j].addr <= x < pre.run_end(pre.spec_runs()[j]));
                    assert(pre.free_byte(x));
                } else if j > k {
                    assert(pre.spec_runs()[j - 1].addr <= x < pre.run_end(pre.spec_runs()[j - 1]));
                    assert(pre.free_byte(x));
                }
            }
            if pre.free_byte(x) {
                let j = choose|j: int|
                    0 <= j < pre.spec_runs().len() && (#[trigger] pre.spec_runs()[j]).addr <= x
                        < pre.run_end(pre.spec_runs()[j]);
                if j < k {
                    assert(post.spec_runs()[j].addr <= x < post.run_end(post.spec_runs()[j]));
                } else {
                    assert(post.spec_runs()[j + 1].addr <= x < post.run_end(
                        post.spec_runs()[j + 1],
                    ));
                }
                assert(post.free_byte(x));
            }
            if addr <= x < addr + size {
                assert(post.spec_runs()[k].addr <= x < post.run_end(post.spec_runs()[k]));
                assert(post.free_byte(x));
            }
        }
    }

    /// Splices a brand-new run into the chain at position `k`, taking a
    /// slot from the free-index stack.
    #[verifier::rlimit(100)]
    fn insert_run(&mut self, prev: u64, cur: u64, Ghost(k): Ghost<int>, addr: u64, sf: u64)
        requires
            old(self).wf(),
            old(self).spec_runs().len() < NUMBER_OF_FREE_BLOCK,
            0 <= k <= old(self).spec_runs().len(),
            k < old(self).spec_runs().len() ==> cur == old(self).order@[k],
            k == old(self).spec_runs().len() ==> cur == NO_NEXT,
            k >= 1 ==> prev == old(self).order@[k - 1],
            k == 0 ==> prev == NO_NEXT,
            addr as int % old(self).spec_frame_size() as int == 0,
            sf >= 1,
            addr + sf * old(self).spec_frame_size() <= MAX_PHYS_ADDR,
            k >= 1 ==> old(self).run_end(old(self).spec_runs()[k - 1]) <= addr,
            k < old(self).spec_runs().len() ==> old(self).spec_runs()[k as int].addr >= addr + sf
                * old(self).spec_frame_size(),
        ensures
            final(self).wf(),
            final(self).spec_frame_size() == old(self).spec_frame_size(),
            final(self).spec_reserved_below() == old(self).spec_reserved_below(),
            final(self).spec_runs().len() == old(self).spec_runs().len() + 1,
            final(self).spec_run_pairs() == old(self).spec_run_pairs().insert(k, (addr, sf)),
            forall|x: int|
                #[trigger] final(self).free_byte(x) <==> (old(self).free_byte(x) || (addr <= x
                    < addr + sf * old(self).spec_frame_size())),
    {
        proof {
            reveal(PhysFrameAllocator::arena_wf);
        }
        let ghost pre = *self;
        let ghost size: u64 = (sf * pre.frame_size) as u64;
        let s = self.next();
        let nb = UnusedBlock { addr, size: sf, next: cur };
        self.blocks.set(s as usize, Some(nb));
        if prev != NO_NEXT {
            let pb = match self.blocks[prev as usize] {
                Some(b) => b,
                None => vstd::pervasive::unreached(),
            };
            self.blocks.set(
                prev as usize,
                Some(UnusedBlock { addr: pb.addr, size: pb.size, next: s }),
            );
        } else {
            self.start = s;
        }
        proof {
            self.order@ = pre.order@.insert(k, s as int);
        }
        proof {
            let post = *self;
            let ord = pre.order@;
            let nord = post.order@;
            ord.insert_ensures(k, s as int);
            assert(pre.blocks@[s as int] is None);
            assert forall|j: int| 0 <= j < ord.len() implies #[trigger] ord[j] != s by {
                assert(pre.blocks@[ord[j]] is Some);
            }
            assert(k >= 1 ==> prev == ord[k - 1]);
            assert forall|j: int|
                0 <= j < nord.len() implies (#[trigger] post.blocks@[nord[j]]) == (if j == k {
                Some(nb)
            } else if j == k - 1 && k >= 1 {
                Some(
                    (UnusedBlock {
                        addr: pre.spec_runs()[j].addr,
                        size: pre.spec_runs()[j].size,
                        next: s,
                    }),
                )
            } else if j < k {
                pre.blocks@[ord[j]]
            } else {
                pre.blocks@[ord[j - 1]]
            }) by {
                if j < k - 1 {
                    assert(nord[j] == ord[j]);
                    assert(ord[j] != s);
                    assert(ord[j] != ord[k - 1]);
                } else if j > k {
                    assert(nord[j] == ord[j - 1]);
                    assert(ord[j - 1] != s);
                    if k >= 1 {
                        assert(ord[j - 1] != ord[k - 1]);
                    }
                }
            }
            assert forall|j: int|
                0 <= j < nord.len() implies ((#[trigger] post.spec_runs()[j]).addr == (if j == k {
                addr as int
            } else if j < k {
                pre.spec_runs()[j].addr as int
            } else {
                pre.spec_runs()[j - 1].addr as int
            }) && post.spec_runs()[j].size == (if j == k {
                sf as int
            } else if j < k {
                pre.spec_runs()[j].size as int
            } else {
                pre.spec_runs()[j - 1].size as int
            })) by {}
            assert forall|m: int|
                0 <= m < post.free_slots@.len() implies (#[trigger] post.blocks@[post.free_slots@[m]
                    as int]) is None by {
                assert(pre.free_slots@[m] == post.free_slots@[m]);
                assert(pre.free_slots@[m] != pre.free_slots@[pre.free_slots@.len() - 1]);
                if k >= 1 {
                    assert(pre.free_slots@[m] != ord[k - 1]);
                }
            }
            assert(post.arena_wf());
            PhysFrameAllocator::lemma_insert_shape(pre, post, k, addr, sf, size);
            assert(post.wf());
            PhysFrameAllocator::lemma_pairs_insert_from_pointwise(pre, post, k, addr, sf);
        }
    }

    /// Carries the pointwise description of an insertion to the pair view.
    proof fn lemma_pairs_insert_from_pointwise(
        pre: PhysFrameAllocator,
        post: PhysFrameAllocator,
        k: int,
        addr: u64,
        sf: u64,
    )
        requires
            post.spec_runs().len() == pre.spec_runs().len() + 1,
            0 <= k <= pre.spec_runs().len(),
            forall|j: int|
                0 <= j < post.spec_runs().len() ==> ((#[trigger] post.spec_runs()[j]).addr == (
                if j == k {
                    addr as int
                } else if j < k {
                    pre.spec_runs()[j].addr as int
                } else {
                    pre.spec_runs()[j - 1].addr as int
                }) && post.spec_runs()[j].size == (if j == k {
                    sf as int
                } else if j < k {
                    pre.spec_runs()[j].size as int
                } else {
                    pre.spec_runs()[j - 1].size as int
                })),
        ensures
            post.spec_run_pairs() == pre.spec_run_pairs().insert(k, (addr, sf)),
    {
        let npairs = pre.spec_run_pairs().insert(k, (addr, sf));
        pre.spec_run_pairs().insert_ensures(k, (addr, sf));
        assert forall|j: int|
            0 <= j < post.spec_run_pairs().len() implies #[trigger] post.spec_run_pairs()[j]
            == npairs[j] by {
            if j < k {
                assert(npairs[j] == pre.spec_run_pairs()[j]);
            } else if j > k {
                assert(npairs[j] == pre.spec_run_pairs()[j - 1]);
            }
        }
        assert(post.spec_run_pairs() =~= npairs);
    }

    /// Inserts the frame-aligned byte range `[addr, addr + size)` as free
    /// memory: the address-ordered chain is scanned from the head for the
    /// insertion point, and the range is merged into the adjacent successor
    /// or predecessor run where one touches it, else spliced in as a new
    /// run.  A range that bridges two runs is merged into the successor
    /// only, leaving two touching runs; `merge_insert_pairs` is the exact
    /// statement of all three shapes.
    #[verifier::rlimit(100)]
    pub fn add_aligned_free_block(&mut self, addr: u64, size: u64)
        requires
            old(self).wf(),
            old(self).spec_run_pairs().len() < NUMBER_OF_FREE_BLOCK,
            addr as int % old(self).spec_frame_size() as int == 0,
            size as int % old(self).spec_frame_size() as int == 0,
            size >= old(self).spec_frame_size(),
            addr + size <= MAX_PHYS_ADDR,
            forall|x: int| addr <= x < addr + size ==> !old(self).free_byte(x),
        ensures
            final(self).wf(),
            final(self).spec_frame_size() == old(self).spec_frame_size(),
            final(self).spec_reserved_below() == old(self).spec_reserved_below(),
            final(self).spec_run_pairs().len() <= old(self).spec_run_pairs().len() + 1,
            final(self).spec_run_pairs() == merge_insert_pairs(
                old(self).spec_frame_size(),
                old(self).spec_run_pairs(),
                addr,
                ((size as int / old(self).spec_frame_size() as int) as u64),
            ),
            (exists|j: int|
                0 <= j < old(self).spec_run_pairs().len() && ((#[trigger] old(
                    self,
                ).spec_run_pairs()[j]).0 == addr + size || pair_end(
                    old(self).spec_frame_size(),
                    old(self).spec_run_pairs()[j],
                ) == addr)) ==> final(self).spec_run_pairs().len() == old(
                self,
            ).spec_run_pairs().len(),
            (forall|j: int|
                0 <= j < old(self).spec_run_pairs().len() ==> ((#[trigger] old(
                    self,
                ).spec_run_pairs()[j]).0 != addr + size && pair_end(
                    old(self).spec_frame_size(),
                    old(self).spec_run_pairs()[j],
                ) != addr)) ==> final(self).spec_run_pairs().len() == old(
                self,
            ).spec_run_pairs().len() + 1,
            forall|x: int|
                #[trigger] final(self).free_byte(x) <==> (old(self).free_byte(x) || (addr <= x
                    < addr + size)),
    {
        proof {
            reveal(PhysFrameAllocator::arena_wf);
        }
        let ghost pre = *self;
        let mut prev: u64 = NO_NEXT;
        let mut cur: u64 = self.start;
        let ghost mut k: int = 0;
        loop
            invariant
                *self == pre,
                pre.wf(),
                0 <= k <= pre.spec_runs().len(),
                k < pre.spec_runs().len() ==> cur == pre.order@[k],
                k == pre.spec_runs().len() ==> cur == NO_NEXT,
                k >= 1 ==> prev == pre.order@[k - 1],
                k == 0 ==> prev == NO_NEXT,
                forall|j: int| 0 <= j < k ==> (#[trigger] pre.spec_runs()[j]).addr < addr,
            ensures
                *self == pre,
                0 <= k <= pre.spec_runs().len(),
                k < pre.spec_runs().len() ==> cur == pre.order@[k] && pre.spec_runs()[k].addr
                    >= addr,
                k == pre.spec_runs().len() ==> cur == NO_NEXT,
                k >= 1 ==> prev == pre.order@[k - 1],
                k == 0 ==> prev == NO_NEXT,
                forall|j: int| 0 <= j < k ==> (#[trigger] pre.spec_runs()[j]).addr < addr,
            decreases pre.spec_runs().len() - k,
        {
            proof {
                reveal(PhysFrameAllocator::arena_wf);
            }
            if cur == NO_NEXT {
                proof {
                    if k < pre.spec_runs().len() {
                        assert(0 <= pre.order@[k] < NUMBER_OF_FREE_BLOCK);
                        assert(false);
                    }
                }
                break;
            }
            proof {
                assert(k < pre.spec_runs().len());
                assert(pre.blocks@[cur as int] is Some);
            }
            let b = match self.blocks[cur as usize] {
                Some(b) => b,
                None => vstd::pervasive::unreached(),
            };
            proof {
                assert(b == pre.spec_runs()[k]);
            }
            if b.addr >= addr {
                break;
            }
            prev = cur;
            cur = b.next;
            proof {
                if k + 1 < pre.spec_runs().len() {
                    assert(pre.blocks@[pre.order@[k]]->0.next == pre.order@[k + 1]);
                } else {
                    assert(pre.blocks@[pre.order@[k]]->0.next == NO_NEXT);
                }
                k = k + 1;
            }
        }
        proof {
            if k >= 1 {
                assert(pre.run_wf(pre.spec_runs()[k - 1]));
                if pre.run_end(pre.spec_runs()[k - 1]) > addr {
                    assert(pre.spec_runs()[k - 1].addr <= addr < pre.run_end(
                        pre.spec_runs()[k - 1],
                    ));
                    assert(pre.free_byte(addr as int));
                    assert(addr <= addr < addr + size);
                    assert(false);
                }
            }
            if k < pre.spec_runs().len() {
                let c = pre.spec_runs()[k];
                assert(pre.run_wf(c));
                if c.addr < addr + size {
                    lemma_mul_inequality(1, c.size as int, pre.frame_size as int);
                    assert(c.addr <= c.addr < pre.run_end(c));
                    assert(pre.free_byte(c.addr as int));
                    assert(false);
                }
            }
        }
        let ghost opairs = pre.spec_run_pairs();
        let ghost fsg = pre.frame_size;
        let ghost sfg: u64 = (size as int / pre.frame_size as int) as u64;
        proof {
            assert forall|j: int| 0 <= j < k implies (#[trigger] opairs[j]).0 < addr by {
                assert(pre.spec_runs()[j].addr < addr);
            }
            lemma_find_pos_char(opairs, addr, k);
            lemma_fundamental_div_mod(size as int, fsg as int);
            assert(sfg * fsg == size) by {
                lemma_mul_is_commutative(sfg as int, fsg as int);
            }
        }
        let succ_adj: bool = if cur != NO_NEXT {
            let b = match self.blocks[cur as usize] {
                Some(b) => b,
                None => vstd::pervasive::unreached(),
            };
            b.addr == addr + size
        } else {
            false
        };
        proof {
            assert(succ_adj == (k < opairs.len() && opairs[k].0 == addr + sfg * fsg));
        }
        if succ_adj {
            self.merge_succ(cur, Ghost(k), addr, size);
            proof {
                assert(self.spec_run_pairs() == merge_insert_pairs(fsg, opairs, addr, sfg));
            }
            return ;
        }
        let pred_adj: bool = if prev != NO_NEXT {
            let pb = match self.blocks[prev as usize] {
                Some(b) => b,
                None => vstd::pervasive::unreached(),
            };
            proof {
                assert(pb == pre.spec_runs()[k - 1]);
                assert(pre.run_wf(pb));
                vstd::arithmetic::mul::lemma_mul_nonnegative(
                    pb.size as int,
                    pre.frame_size as int,
                );
            }
            let pb_end = pb.addr + pb.size * self.frame_size;
            pb_end == addr
        } else {
            false
        };
        proof {
            assert(pred_adj == (k >= 1 && pair_end(fsg, opairs[k - 1]) == addr));
        }
        if pred_adj {
            self.merge_pred(prev, Ghost(k), addr, size);
            proof {
                assert(self.spec_run_pairs() == merge_insert_pairs(fsg, opairs, addr, sfg));
            }
            return ;
        }
        proof {
            assert forall|j: int|
                0 <= j < opairs.len() implies ((#[trigger] opairs[j]).0 != addr + size && pair_end(
                fsg,
                opairs[j],
            ) != addr) by {
                assert(pre.run_wf(pre.spec_runs()[j]));
                lemma_mul_inequality(1, pre.spec_runs()[j].size as int, fsg as int);
                if opairs[j].0 == addr + size {
                    if j < k {
                        assert(opairs[j].0 < addr);
                        assert(false);
                    } else if j == k {
                        assert(false);
                    } else {
                        pre.lemma_runs_ordered(k, j);
                        assert(pre.spec_runs()[k].addr >= addr + size);
                        assert(false);
                    }
                }
                if pair_end(fsg, opairs[j]) == addr {
                    assert(opairs[j].0 < addr);
                    if j >= k {
                        if j > k {
                            pre.lemma_runs_ordered(k, j);
                        }
                        assert(pre.spec_runs()[k].addr >= addr);
                        assert(false);
                    }
                    if j < k - 1 {
                        assert(pre.run_end(pre.spec_runs()[j]) <= pre.spec_runs()[j + 1].addr);
                        assert(opairs[j + 1].0 < addr);
                        assert(false);
                    } else {
                        assert(false);
                    }
                }
            }
        }
        let sf = size / self.frame_size;
        proof {
            if sf < 1 {
                lemma_mul_inequality(sfg as int, 0, fsg as int);
                assert(false);
            }
        }
        self.insert_run(prev, cur, Ghost(k), addr, sf);
        proof {
            assert(self.spec_run_pairs() == merge_insert_pairs(fsg, opairs, addr, sfg));
        }
    }

    /// Aligns a byte range inward to frame boundaries and hands the aligned
    /// part to the run list; a range with less than one whole aligned frame
    /// is dropped.
    pub fn add_free_block(&mut self, addr: u64, size: u64)
        requires
            old(self).wf(),
            old(self).spec_run_pairs().len() < NUMBER_OF_FREE_BLOCK,
            addr + size <= MAX_PHYS_ADDR,
            forall|x: int| addr <= x < addr + size ==> !old(self).free_byte(x),
        ensures
            final(self).wf(),
            final(self).spec_frame_size() == old(self).spec_frame_size(),
            final(self).spec_reserved_below() == old(self).spec_reserved_below(),
            final(self).spec_run_pairs().len() <= old(self).spec_run_pairs().len() + 1,
            spec_fit_len(
                old(self).spec_frame_size() as int,
                addr as int,
                size as int,
            ) >= old(self).spec_frame_size() ==> (forall|x: int|
                #[trigger] final(self).free_byte(x) <==> (old(self).free_byte(x) || (
                spec_fit_start(old(self).spec_frame_size() as int, addr as int) <= x
                    < spec_fit_start(old(self).spec_frame_size() as int, addr as int)
                    + spec_fit_len(
                    old(self).spec_frame_size() as int,
                    addr as int,
                    size as int,
                )))),
            spec_fit_len(old(self).spec_frame_size() as int, addr as int, size as int) < old(
                self,
            ).spec_frame_size() ==> *final(self) == *old(self),
            spec_fit_len(old(self).spec_frame_size() as int, addr as int, size as int) >= old(
                self,
            ).spec_frame_size() ==> final(self).spec_run_pairs() == merge_insert_pairs(
                old(self).spec_frame_size(),
                old(self).spec_run_pairs(),
                (spec_fit_start(old(self).spec_frame_size() as int, addr as int)) as u64,
                ((spec_fit_len(old(self).spec_frame_size() as int, addr as int, size as int)
                    / old(self).spec_frame_size() as int)) as u64,
            ),
    {
        let fs = self.frame_size;
        let rem = addr % fs;
        proof {
            lemma_fundamental_div_mod(addr as int, fs as int);
            if rem != 0 {
                vstd::arithmetic::div_mod::lemma_small_mod((fs - rem) as nat, fs as nat);
                lemma_mul_is_distributive_add(fs as int, (addr as int) / (fs as int), 1);
                vstd::arithmetic::div_mod::lemma_fundamental_div_mod_converse(
                    addr + (fs - rem),
                    fs as int,
                    (addr as int) / (fs as int) + 1,
                    0,
                );
            } else {
                vstd::arithmetic::div_mod::lemma_mod_self_0(fs as int);
            }
        }
        let a2 = if rem == 0 {
            addr
        } else {
            addr + (fs - rem)
        };
        let end = addr + size;
        if a2 >= end {
            proof {
                assert(spec_fit_len(fs as int, addr as int, size as int) < fs);
            }
            return ;
        }
        let avail = end - a2;
        proof {
            lemma_fundamental_div_mod(avail as int, fs as int);
            vstd::arithmetic::div_mod::lemma_fundamental_div_mod_converse(
                avail - avail % fs,
                fs as int,
                (avail as int) / (fs as int),
                0,
            );
        }
        let s2 = avail - avail % fs;
        if s2 >= fs {
            proof {
                assert(a2 == spec_fit_start(fs as int, addr as int));
                assert(s2 == spec_fit_len(fs as int, addr as int, size as int));
            }
            self.add_aligned_free_block(a2, s2);
        } else {
            proof {
                assert(spec_fit_len(fs as int, addr as int, size as int) < fs);
            }
        }
    }

    /// Reads the boot memory map and seeds the run list: extents that
    /// reach above the reserved low-memory window are clipped to start at
    /// it, aligned inward to frame boundaries, and inserted address-ordered
    /// with adjacent runs merged; what is left smaller than one frame is
    /// dropped.
    #[verifier::rlimit(100)]
    pub fn init(&mut self, mmap: &MemoryMapBuffer)
        requires
            old(self).wf(),
            old(self).spec_run_pairs().len() == 0,
            mmap.len as int <= mmap.items@.len(),
            mmap.len <= NUMBER_OF_FREE_BLOCK,
            forall|i: int|
                0 <= i < mmap.len ==> (#[trigger] mmap.items@[i]).addr + mmap.items@[i].size
                    <= MAX_PHYS_ADDR,
            forall|i: int, j: int|
                0 <= i < j < mmap.len ==> ((#[trigger] mmap.items@[i]).addr + mmap.items@[i].size
                    <= (#[trigger] mmap.items@[j]).addr || mmap.items@[j].addr
                    + mmap.items@[j].size <= mmap.items@[i].addr),
        ensures
            final(self).wf(),
            final(self).spec_frame_size() == old(self).spec_frame_size(),
            final(self).spec_reserved_below() == old(self).spec_reserved_below(),
            final(self).spec_run_pairs() == spec_init_runs(
                old(self).spec_frame_size(),
                old(self).spec_reserved_below(),
                mmap.items@.take(mmap.len as int),
            ),
            forall|x: int|
                #[trigger] final(self).free_byte(x) <==> (exists|i: int|
                    0 <= i < mmap.len && final(self).contributes(#[trigger] mmap.items@[i], x)),
    {
        let ghost pre = *self;
        let ghost fsg = pre.frame_size;
        let ghost rbg = pre.reserved_below;
        proof {
            assert(mmap.items@.take(0) =~= Seq::<MemoryMapItem>::empty());
            assert(pre.spec_run_pairs() =~= Seq::<(u64, u64)>::empty());
        }
        let n = mmap.len as usize;
        let mut i: usize = 0;
        while i < n
            invariant
                i <= n,
                n == mmap.len,
                n <= NUMBER_OF_FREE_BLOCK,
                n <= mmap.items@.len(),
                self.wf(),
                self.spec_frame_size() == pre.spec_frame_size(),
                self.spec_reserved_below() == pre.spec_reserved_below(),
                fsg == self.spec_frame_size(),
                rbg == self.spec_reserved_below(),
                self.spec_runs().len() <= i,
                forall|j: int|
                    0 <= j < mmap.len ==> (#[trigger] mmap.items@[j]).addr + mmap.items@[j].size
                        <= MAX_PHYS_ADDR,
                forall|j1: int, j2: int|
                    0 <= j1 < j2 < mmap.len ==> ((#[trigger] mmap.items@[j1]).addr
                        + mmap.items@[j1].size <= (#[trigger] mmap.items@[j2]).addr
                        || mmap.items@[j2].addr + mmap.items@[j2].size <= mmap.items@[j1].addr),
                self.spec_run_pairs() == spec_init_runs(fsg, rbg, mmap.items@.take(i as int)),
                forall|x: int|
                    #[trigger] self.free_byte(x) <==> (exists|j: int|
                        0 <= j < i && self.contributes(#[trigger] mmap.items@[j], x)),
            decreases n - i,
        {
            let ghost mid = *self;
            let item = mmap.items[i];
            let rb = self.reserved_below;
            if item.addr + item.size > rb {
                let a: u64;
                let s: u64;
                if item.addr < rb {
                    a = rb;
                    s = item.size + item.addr - rb;
                } else {
                    a = item.addr;
                    s = item.size;
                }
                proof {
                    assert forall|x: int| a <= x < a + s implies !mid.free_byte(x) by {
                        if mid.free_byte(x) {
                            let j = choose|j: int|
                                0 <= j < i && mid.contributes(#[trigger] mmap.items@[j], x);
                            mid.lemma_contribution_in_item(mmap.items@[j]);
                            assert(mmap.items@[j].addr <= x < mmap.items@[j].addr
                                + mmap.items@[j].size);
                            assert(item.addr <= x < item.addr + item.size);
                            assert(false);
                        }
                    }
                }
                self.add_free_block(a, s);
                proof {
                    assert(a as int == (if item.addr < rbg {
                        rbg as int
                    } else {
                        item.addr as int
                    }));
                    assert(s == item.addr + item.size - a);
                    if spec_fit_len(fsg as int, a as int, s as int) >= fsg {
                        assert(self.spec_run_pairs() == merge_insert_pairs(
                            fsg,
                            mid.spec_run_pairs(),
                            (spec_fit_start(fsg as int, a as int)) as u64,
                            ((spec_fit_len(fsg as int, a as int, s as int)
                                / fsg as int)) as u64,
                        ));
                    } else {
                        assert(*self == mid);
                    }
                    let fs = mid.spec_frame_size() as int;
                    assert forall|x: int|
                        #[trigger] self.free_byte(x) <==> (exists|j: int|
                            0 <= j < i + 1 && self.contributes(
                                #[trigger] mmap.items@[j],
                                x,
                            )) by {
                        assert(self.contributes(item, x) == (spec_fit_len(fs, a as int, s as int)
                            >= fs && spec_fit_start(fs, a as int) <= x < spec_fit_start(
                            fs,
                            a as int,
                        ) + spec_fit_len(fs, a as int, s as int)));
                        if self.free_byte(x) {
                            if mid.free_byte(x) {
                                let j = choose|j: int|
                                    0 <= j < i && mid.contributes(#[trigger] mmap.items@[j], x);
                                assert(self.contributes(mmap.items@[j], x));
                            } else {
                                assert(self.contributes(item, x));
                            }
                        }
                        if exists|j: int|
                            0 <= j < i + 1 && self.contributes(#[trigger] mmap.items@[j], x) {
                            let j = choose|j: int|
                                0 <= j < i + 1 && self.contributes(#[trigger] mmap.items@[j], x);
                            if j < i {
                                assert(mid.free_byte(x));
                            }
                            assert(self.free_byte(x));
                        }
                    }
                }
            } else {
                proof {
                    assert forall|x: int|
                        #[trigger] self.free_byte(x) <==> (exists|j: int|
                            0 <= j < i + 1 && self.contributes(
                                #[trigger] mmap.items@[j],
                                x,
                            )) by {
                        assert(!self.contributes(item, x));
                        if exists|j: int|
                            0 <= j < i + 1 && self.contributes(#[trigger] mmap.items@[j], x) {
                            let j = choose|j: int|
                                0 <= j < i + 1 && self.contributes(#[trigger] mmap.items@[j], x);
                            assert(j < i);
                        }
                    }
                }
            }
            proof {
                let taken = mmap.items@.take(i + 1 as int);
                assert(taken.drop_last() =~= mmap.items@.take(i as int));
                assert(taken.last() == item);
                assert(spec_init_runs(fsg, rbg, taken) == spec_item_step(
                    fsg,
                    rbg,
                    spec_init_runs(fsg, rbg, mmap.items@.take(i as int)),
                    item,
                ));
                assert(self.spec_run_pairs() == spec_item_step(
                    fsg,
                    rbg,
                    mid.spec_run_pairs(),
                    item,
                ));
            }
            i = i + 1;
        }
    }

    /// What one boot extent ends up contributing to free memory: its part
    /// above the reservation, aligned inward to frame boundaries, when at
    /// least one whole frame is left.
    pub open spec fn contributes(self, it: MemoryMapItem, x: int) -> bool {
        let fs = self.spec_frame_size() as int;
        let rb = self.spec_reserved_below() as int;
        &&& it.addr + it.size > rb
        &&& ({
            let a = if it.addr < rb {
                rb
            } else {
                it.addr as int
            };
            let s = it.addr + it.size - a;
            &&& spec_fit_len(fs, a, s) >= fs
            &&& spec_fit_start(fs, a) <= x < spec_fit_start(fs, a) + spec_fit_len(fs, a, s)
        })
    }

    /// A boot extent's contribution lies inside the extent itself.
    proof fn lemma_contribution_in_item(self, it: MemoryMapItem)
        requires
            self.spec_frame_size() >= 1,
        ensures
            forall|x: int|
                self.contributes(it, x) ==> it.addr <= x < it.addr + it.size,
    {
        let fs = self.spec_frame_size() as int;
        let rb = self.spec_reserved_below() as int;
        assert forall|x: int| self.contributes(it, x) implies it.addr <= x < it.addr
            + it.size by {
            let a = if it.addr < rb {
                rb
            } else {
                it.addr as int
            };
            let s = it.addr + it.size - a;
            lemma_fundamental_div_mod(a, fs);
            if a % fs != 0 {
                vstd::arithmetic::div_mod::lemma_small_mod((fs - a % fs) as nat, fs as nat);
            } else {
                vstd::arithmetic::div_mod::lemma_mod_self_0(fs);
            }
            if a + s >= spec_fit_start(fs, a) {
                lemma_fundamental_div_mod(a + s - spec_fit_start(fs, a), fs);
            }
        }
    }

    /// The shape of a well-formed run list, for callers outside this
    /// module: every run is frame-aligned, at least one frame long and
    /// inside the tracked range; runs are address-ordered and disjoint; the
    /// head run starts at the least free byte; and a byte is free exactly
    /// when some run covers it.
    pub proof fn lemma_run_pairs_facts(&self)
        requires
            self.wf(),
        ensures
            1 <= self.spec_frame_size() <= MAX_PHYS_ADDR,
            forall|j: int|
                0 <= j < self.spec_run_pairs().len() ==> ((#[trigger] self.spec_run_pairs()[j]).1
                    >= 1 && self.spec_run_pairs()[j].0 as int % self.spec_frame_size() as int == 0
                    && self.spec_run_pairs()[j].0 < pair_end(
                    self.spec_frame_size(),
                    self.spec_run_pairs()[j],
                ) <= MAX_PHYS_ADDR),
            forall|j: int|
                0 <= j && j + 1 < self.spec_run_pairs().len() ==> pair_end(
                    self.spec_frame_size(),
                    #[trigger] self.spec_run_pairs()[j],
                ) <= self.spec_run_pairs()[j + 1].0,
            forall|j: int|
                0 < j < self.spec_run_pairs().len() ==> self.spec_run_pairs()[0].0 < (
                #[trigger] self.spec_run_pairs()[j]).0,
            forall|x: int|
                self.free_byte(x) <==> (exists|j: int|
                    0 <= j < self.spec_run_pairs().len() && (#[trigger] self.spec_run_pairs()[j]).0
                        <= x < pair_end(self.spec_frame_size(), self.spec_run_pairs()[j])),
            forall|x: int| #[trigger] self.free_byte(x) ==> self.spec_run_pairs().len() > 0
                && self.spec_run_pairs()[0].0 <= x,
            self.spec_run_pairs().len() > 0 ==> self.free_byte(
                self.spec_run_pairs()[0].0 as int,
            ),
    {
        let pairs = self.spec_run_pairs();
        let fs = self.spec_frame_size();
        assert forall|j: int|
            0 <= j < pairs.len() implies ((#[trigger] pairs[j]).1 >= 1 && pairs[j].0 as int
            % fs as int == 0 && pairs[j].0 < pair_end(fs, pairs[j]) <= MAX_PHYS_ADDR) by {
            assert(self.run_wf(self.spec_runs()[j]));
            lemma_mul_inequality(1, self.spec_runs()[j].size as int, fs as int);
        }
        assert forall|j: int|
            0 <= j && j + 1 < pairs.len() implies pair_end(fs, #[trigger] pairs[j]) <= pairs[j
            + 1].0 by {
            assert(self.run_end(self.spec_runs()[j]) <= self.spec_runs()[j + 1].addr);
        }
        assert forall|j: int| 0 < j < pairs.len() implies pairs[0].0 < (#[trigger] pairs[j]).0 by {
            self.lemma_runs_ordered(0, j);
        }
        assert forall|x: int|
            self.free_byte(x) <==> (exists|j: int|
                0 <= j < pairs.len() && (#[trigger] pairs[j]).0 <= x < pair_end(
                    fs,
                    pairs[j],
                )) by {
            if self.free_byte(x) {
                let j = choose|j: int|
                    0 <= j < self.spec_runs().len() && (#[trigger] self.spec_runs()[j]).addr <= x
                        < self.run_end(self.spec_runs()[j]);
                assert(pairs[j].0 <= x < pair_end(fs, pairs[j]));
            }
            if exists|j: int|
                0 <= j < pairs.len() && (#[trigger] pairs[j]).0 <= x < pair_end(fs, pairs[j]) {
                let j = choose|j: int|
                    0 <= j < pairs.len() && (#[trigger] pairs[j]).0 <= x < pair_end(fs, pairs[j]);
                assert(self.spec_runs()[j].addr <= x < self.run_end(self.spec_runs()[j]));
                assert(self.free_byte(x));
            }
        }
        assert forall|x: int| #[trigger] self.free_byte(x) implies pairs.len() > 0 && pairs[0].0
            <= x by {
            let j = choose|j: int|
                0 <= j < self.spec_runs().len() && (#[trigger] self.spec_runs()[j]).addr <= x
                    < self.run_end(self.spec_runs()[j]);
            if j > 0 {
                self.lemma_runs_ordered(0, j);
            }
        }
        if pairs.len() > 0 {
            assert(self.run_wf(self.spec_runs()[0]));
            lemma_mul_inequality(1, self.spec_runs()[0].size as int, fs as int);
            assert(self.spec_runs()[0].addr <= pairs[0].0 < self.run_end(self.spec_runs()[0]));
            assert(self.free_byte(pairs[0].0 as int));
        }
    }

    /// How many runs the list holds: every slot not on the free stack.
    pub fn run_count(&self) -> (r: u64)
        requires
            self.wf(),
        ensures
            r == self.spec_run_pairs().len(),
    {
        proof {
            reveal(PhysFrameAllocator::arena_wf);
        }
        NUMBER_OF_FREE_BLOCK - (self.free_slots.len() as u64)
    }

    /// The head run: the lowest-addressed free run, as its base address and
    /// frame count, or nothing when physical memory is exhausted.
    pub fn head_run(&self) -> (r: Option<(u64, u64)>)
        requires
            self.wf(),
        ensures
            r is None <==> self.spec_run_pairs().len() == 0,
            r matches Some(h) ==> self.spec_run_pairs().len() > 0 && h
                == self.spec_run_pairs()[0],
    {
        proof {
            reveal(PhysFrameAllocator::arena_wf);
        }
        if self.start == NO_NEXT {
            proof {
                if self.spec_runs().len() > 0 {
                    assert(0 <= self.order@[0] < NUMBER_OF_FREE_BLOCK);
                    assert(false);
                }
            }
            None
        } else {
            proof {
                if self.spec_runs().len() == 0 {
                    assert(false);
                }
                assert(self.blocks@[self.start as int] is Some);
            }
            let b = match self.blocks[self.start as usize] {
                Some(b) => b,
                None => vstd::pervasive::unreached(),
            };
            Some((b.addr, b.size))
        }
    }

    /// The kernel's own configuration: the fixed frame size and the fixed
    /// reserved low-memory window.
    pub fn new() -> (r: PhysFrameAllocator)
        ensures
            r.wf(),
            r.spec_frame_size() == FRAME_SIZE,
            r.spec_reserved_below() == MEMORY_RESERVED_BELOW,
            r.spec_run_pairs().len() == 0,
    {
        PhysFrameAllocator::new_conf(FRAME_SIZE, MEMORY_RESERVED_BELOW)
    }
}

/// One past the last byte of the run pair `p`, for frame size `fs`.
pub open spec fn pair_end(fs: u64, p: (u64, u64)) -> int {
    p.0 + p.1 * fs
}

/// The position where a run starting at `addr` belongs in the
/// address-ordered pair list: the first index whose base is at or above
/// `addr`.
pub open spec fn find_pos(pairs: Seq<(u64, u64)>, addr: u64) -> int
    decreases pairs.len(),
{
    if pairs.len() == 0 {
        0
    } else if pairs[0].0 >= addr {
        0
    } else {
        1 + find_pos(pairs.drop_first(), addr)
    }
}

/// What inserting the frame-aligned range `[addr, addr + sf * fs)` does to
/// the run list: a run beginning exactly at the range's end grows backward
/// over it; otherwise a run ending exactly at the range's start grows
/// forward; otherwise a fresh run is spliced in at the address-ordered
/// position.  A range that bridges two runs is merged into one side only,
/// leaving two touching runs; the bridged slot is not reclaimed.
pub open spec fn merge_insert_pairs(
    fs: u64,
    pairs: Seq<(u64, u64)>,
    addr: u64,
    sf: u64,
) -> Seq<(u64, u64)> {
    let k = find_pos(pairs, addr);
    if k < pairs.len() && pairs[k].0 == addr + sf * fs {
        pairs.update(k, ((addr, (pairs[k].1 + sf) as u64)))
    } else if k >= 1 && pair_end(fs, pairs[k - 1]) == addr {
        pairs.update(k - 1, ((pairs[k - 1].0, (pairs[k - 1].1 + sf) as u64)))
    } else {
        pairs.insert(k, (addr, sf))
    }
}

/// What one boot extent does to the run list: its part above the
/// reservation, aligned inward to frame boundaries, is merge-inserted when
/// at least one whole frame is left, and dropped otherwise.
pub open spec fn spec_item_step(
    fs: u64,
    rb: u64,
    pairs: Seq<(u64, u64)>,
    it: MemoryMapItem,
) -> Seq<(u64, u64)> {
    if it.addr + it.size > rb {
        let a = if it.addr < rb {
            rb as int
        } else {
            it.addr as int
        };
        let s = it.addr + it.size - a;
        if spec_fit_len(fs as int, a, s) >= fs {
            merge_insert_pairs(
                fs,
                pairs,
                spec_fit_start(fs as int, a) as u64,
                (spec_fit_len(fs as int, a, s) / fs as int) as u64,
            )
        } else {
            pairs
        }
    } else {
        pairs
    }
}

/// The run list that reading a boot memory map produces: the extents'
/// contributions, applied in order to an empty list.
pub open spec fn spec_init_runs(fs: u64, rb: u64, items: Seq<MemoryMapItem>) -> Seq<(u64, u64)>
    decreases items.len(),
{
    if items.len() == 0 {
        Seq::empty()
    } else {
        spec_item_step(fs, rb, spec_init_runs(fs, rb, items.drop_last()), items.last())
    }
}

/// `find_pos` returns exactly the index below which every base is below
/// `addr` and at which the base (if any) is at or above it.
proof fn lemma_find_pos_char(pairs: Seq<(u64, u64)>, addr: u64, k: int)
    requires
        0 <= k <= pairs.len(),
        forall|j: int| 0 <= j < k ==> (#[trigger] pairs[j]).0 < addr,
        k < pairs.len() ==> pairs[k].0 >= addr,
    ensures
        find_pos(pairs, addr) == k,
    decreases k,
{
    if k == 0 {
    } else {
        assert(pairs[0].0 < addr);
        lemma_find_pos_char(pairs.drop_first(), addr, k - 1);
    }
}

/// The first frame-aligned address at or above `a`.
pub open spec fn spec_fit_start(fs: int, a: int) -> int {
    a + ((fs - a % fs) % fs)
}

/// How many bytes of `[a, a + s)` remain after aligning the start up and
/// the end down to frame boundaries.
pub open spec fn spec_fit_len(fs: int, a: int, s: int) -> int {
    if a + s >= spec_fit_start(fs, a) {
        let l = a + s - spec_fit_start(fs, a);
        l - l % fs
    } else {
        0
    }
}

/// Rounds a physical address up to the next frame boundary.
pub fn align_up(addr: u64) -> (r: u64)
    requires
        addr + FRAME_SIZE - 1 <= u64::MAX,
    ensures
        r == spec_align_up(addr as int),
{
    let t = addr + (FRAME_SIZE - 1);
    proof {
        assert(t >> 21u64 << 21u64 == t - t % 0x200000) by (bit_vector);
    }
    t >> FRAME_SIZE_BIT_WIDTH << FRAME_SIZE_BIT_WIDTH
}

/// Rounds a physical address down to the frame boundary below it.
pub fn align_down(addr: u64) -> (r: u64)
    ensures
        r == spec_align_down(addr as int),
{
    proof {
        assert(addr >> 21u64 << 21u64 == addr - addr % 0x200000) by (bit_vector);
    }
    addr >> FRAME_SIZE_BIT_WIDTH << FRAME_SIZE_BIT_WIDTH
}

/// True when a physical address sits on a frame boundary.
pub fn is_align(addr: u64) -> (r: bool)
    ensures
        r == (addr % FRAME_SIZE == 0),
{
    let d = align_down(addr);
    d == addr
}

} // verus!
