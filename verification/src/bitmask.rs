//! The coalescing bitmask: one bit per heap granule over the whole heap
//! address range.  A set bit means the granule belongs to a live allocation
//! (or is otherwise not mergeable); a clear bit means the granule lies in a
//! free block.  The heap allocator reads the two bits next to a freed range
//! to decide in constant time whether it can merge with its neighbors.
//!
//! The bits are packed into 64-bit words, most significant bit first:
//! granule `g` lives in word `g >> 6`, bit `63 - (g & 63)`.

use vstd::arithmetic::div_mod::{
    lemma_fundamental_div_mod, lemma_fundamental_div_mod_converse,
};
use vstd::pervasive::VecAdditionalExecFns;
use vstd::prelude::*;

use crate::kernel_const::{HEAP_MASK_MAX_BITS, HEAP_MASK_START_ADDR};

verus! {

/// Bit `k` of word `w`, counting the most significant bit as position 0.
pub open spec fn word_bit(w: u64, k: u64) -> bool
    recommends
        k < 64,
{
    (w >> ((63 - k) as u64)) & 1u64 == 1u64
}

/// The word whose set bits are exactly positions `s` through `e`
/// inclusive, in most-significant-bit-first numbering.
pub open spec fn spec_mask_range(s: u64, e: u64) -> u64
    recommends
        s <= e < 64,
{
    (if e == 63 {
        u64::MAX
    } else {
        u64::MAX << ((63 - e) as u64)
    }) & (if s == 0 {
        u64::MAX
    } else {
        !(u64::MAX << ((64 - s) as u64))
    })
}

/// Which bits `spec_mask_range` sets.
proof fn lemma_mask_range_bits(s: u64, e: u64)
    by (bit_vector)
    requires
        s <= e,
        e < 64,
    ensures
        forall|k: u64| k < 64 ==> (#[trigger] word_bit(spec_mask_range(s, e), k) <==> s <= k <= e),
{
}

/// Bit positions survive `|`: a bit of `w | m` is set exactly when it is
/// set in `w` or in `m`.
proof fn lemma_word_bit_or(w: u64, m: u64)
    by (bit_vector)
    ensures
        forall|k: u64|
            k < 64 ==> (#[trigger] word_bit(w | m, k) <==> word_bit(w, k) || word_bit(m, k)),
{
}

/// A bit of `w & !m` is set exactly when it is set in `w` and clear in `m`.
proof fn lemma_word_bit_clear(w: u64, m: u64)
    by (bit_vector)
    ensures
        forall|k: u64|
            k < 64 ==> (#[trigger] word_bit(w & !m, k) <==> word_bit(w, k) && !word_bit(m, k)),
{
}

/// The all-zero word has no bit set.
proof fn lemma_word_bit_zero()
    by (bit_vector)
    ensures
        forall|k: u64| k < 64 ==> !(#[trigger] word_bit(0u64, k)),
{
}

/// Builds the word whose set bits are exactly positions `s` through `e`
/// inclusive.
pub fn get_mask_in_u64(s: u8, e: u8) -> (r: u64)
    requires
        s <= e,
        e < 64,
    ensures
        r == spec_mask_range(s as u64, e as u64),
        forall|k: u64| k < 64 ==> (#[trigger] word_bit(r, k) <==> s <= k <= e),
{
    let s64: u64 = s as u64;
    let e64: u64 = e as u64;
    let top: u64 = if e64 == 63 {
        u64::MAX
    } else {
        u64::MAX << (63 - e64)
    };
    let bottom: u64 = if s64 == 0 {
        u64::MAX
    } else {
        !(u64::MAX << (64 - s64))
    };
    let r = top & bottom;
    proof {
        lemma_mask_range_bits(s64, e64);
        assert forall|k: u64| k < 64 implies (#[trigger] word_bit(r, k) <==> s <= k <= e) by {
            assert(word_bit(spec_mask_range(s64, e64), k) <==> s64 <= k <= e64);
        }
    }
    r
}

/// The coalescing bitmask.  `size` counts granule bits; the words of
/// `inner` hold them packed, most significant bit first.
pub struct BitMask {
    size: u64,
    inner: Vec<u64>,
}

impl BitMask {
    /// The storage exactly covers `size` bits, `size` is a whole number of
    /// words, and the mask never outgrows its reserved virtual range.
    pub closed spec fn wf(self) -> bool {
        &&& self.size % 64 == 0
        &&& self.inner@.len() * 64 == self.size
        &&& self.size <= HEAP_MASK_MAX_BITS
    }

    /// Number of granule bits currently covered.
    pub closed spec fn spec_size(self) -> u64 {
        self.size
    }

    /// The mask bit of granule `g`.
    pub closed spec fn bit(self, g: int) -> bool
        recommends
            0 <= g < self.spec_size(),
    {
        word_bit(self.inner@[g / 64], (g % 64) as u64)
    }

    /// Bounds that every well-formed mask obeys, for callers that cannot
    /// see into the invariant.
    pub proof fn lemma_wf_bounds(&self)
        requires
            self.wf(),
        ensures
            self.spec_size() <= HEAP_MASK_MAX_BITS,
            self.spec_size() % 64 == 0,
    {
    }

    /// An empty mask, before the heap has grown at all.
    pub fn new() -> (r: BitMask)
        ensures
            r.wf(),
            r.spec_size() == 0,
    {
        BitMask { size: 0, inner: Vec::new() }
    }

    /// Number of granule bits currently covered.
    pub fn size(&self) -> (r: u64)
        ensures
            r == self.spec_size(),
    {
        self.size
    }

    /// True until the first growth.
    pub fn is_empty(&self) -> (r: bool)
        ensures
            r == (self.spec_size() == 0),
    {
        self.size == 0
    }

    /// One past the last byte of mask storage in use: the virtual address
    /// where the next mask frame must be mapped before the mask can grow.
    pub fn boudry_addr(&self) -> (r: u64)
        requires
            self.wf(),
        ensures
            r == HEAP_MASK_START_ADDR + self.spec_size() / 8,
    {
        let sz = self.size;
        proof {
            assert(sz >> 3u64 == sz / 8) by (bit_vector);
        }
        HEAP_MASK_START_ADDR + (sz >> 3)
    }

    /// Splits a granule position into its word index and its
    /// most-significant-bit-first position inside that word.
    pub fn split_pos(&self, pos: u64) -> (r: (u64, u8))
        requires
            pos < self.spec_size(),
        ensures
            r.0 == pos as int / 64,
            r.1 == pos as int % 64,
    {
        proof {
            assert(pos >> 6u64 == pos / 64 && (pos & 0x3f) == pos % 64) by (bit_vector);
        }
        (pos >> 6, (pos & 0x3f) as u8)
    }

    /// Reads the bit of granule `pos`.
    pub fn is_set(&self, pos: u64) -> (r: bool)
        requires
            self.wf(),
            pos < self.spec_size(),
        ensures
            r == self.bit(pos as int),
    {
        let (p, m) = self.split_pos(pos);
        proof {
            lemma_word_index_in_range(self.inner@.len() as int, pos as int);
        }
        let mask = get_mask_in_u64(m, m);
        let w = self.inner[p as usize];
        proof {
            let k: u64 = ((pos as int) % 64) as u64;
            assert((w & spec_mask_range(k, k) != 0) == word_bit(w, k)) by (bit_vector)
                requires
                    k < 64,
            ;
        }
        w & mask != 0
    }

    /// Sets bits `lo..=hi` of word `i` when `on` is true, clears them when
    /// it is false, and leaves every other bit of the mask unchanged.
    fn set_word(&mut self, i: u64, lo: u8, hi: u8, on: bool)
        requires
            old(self).wf(),
            i < old(self).inner@.len(),
            lo <= hi,
            hi < 64,
        ensures
            final(self).wf(),
            final(self).size == old(self).size,
            final(self).inner@.len() == old(self).inner@.len(),
            forall|j: int|
                0 <= j < old(self).inner@.len() && j != i ==> final(self).inner@[j] == old(self).inner@[j],
            forall|k: u64|
                k < 64 ==> (#[trigger] word_bit(final(self).inner@[i as int], k) <==> (if lo <= k
                    <= hi {
                    on
                } else {
                    word_bit(old(self).inner@[i as int], k)
                })),
    {
        let mask = get_mask_in_u64(lo, hi);
        let w = self.inner[i as usize];
        let nw = if on {
            proof {
                lemma_word_bit_or(w, mask);
            }
            w | mask
        } else {
            proof {
                lemma_word_bit_clear(w, mask);
            }
            w & !mask
        };
        self.inner.set(i as usize, nw);
    }

    /// Clears the bits of granules `s` through `e` inclusive, marking them
    /// free, and leaves every other granule unchanged.
    pub fn range_off(&mut self, s: u64, e: u64)
        requires
            old(self).wf(),
            s <= e,
            e < old(self).spec_size(),
        ensures
            final(self).wf(),
            final(self).spec_size() == old(self).spec_size(),
            forall|g: int|
                0 <= g < old(self).spec_size() ==> (#[trigger] final(self).bit(g) <==> (old(self).bit(g) && !(s <= g <= e))),
    {
        self.set_range(s, e, false);
    }

    /// Sets the bits of granules `s` through `e` inclusive, marking them
    /// live, and leaves every other granule unchanged.
    pub fn range_on(&mut self, s: u64, e: u64)
        requires
            old(self).wf(),
            s <= e,
            e < old(self).spec_size(),
        ensures
            final(self).wf(),
            final(self).spec_size() == old(self).spec_size(),
            forall|g: int|
                0 <= g < old(self).spec_size() ==> (#[trigger] final(self).bit(g) <==> (old(self).bit(g) || s <= g <= e)),
    {
        self.set_range(s, e, true);
    }

    /// Walks the words that the span `s..=e` touches: a partial first word
    /// from the span's offset, full words in between, and a partial last
    /// word, or a single word when the span stays inside one.
    fn set_range(&mut self, s: u64, e: u64, on: bool)
        requires
            old(self).wf(),
            s <= e,
            e < old(self).spec_size(),
        ensures
            final(self).wf(),
            final(self).spec_size() == old(self).spec_size(),
            forall|g: int|
                0 <= g < old(self).spec_size() ==> (#[trigger] final(self).bit(g) <==> (if s <= g
                    <= e {
                    on
                } else {
                    old(self).bit(g)
                })),
    {
        let ghost orig = *self;
        let (p1, q1) = self.split_pos(s);
        let (p2, q2) = self.split_pos(e);
        proof {
            lemma_word_index_in_range(self.inner@.len() as int, s as int);
            lemma_word_index_in_range(self.inner@.len() as int, e as int);
        }
        if p1 == p2 {
            self.set_word(p1, q1, q2, on);
        } else {
            self.set_word(p1, q1, 63, on);
            let mut i = p1 + 1;
            while i < p2
                invariant
                    p1 < i <= p2,
                    p1 == s as int / 64,
                    q1 == s as int % 64,
                    p2 < self.inner@.len(),
                    self.wf(),
                    self.size == orig.size,
                    self.inner@.len() == orig.inner@.len(),
                    forall|j: int|
                        0 <= j < orig.inner@.len() && j != p1 && !(p1 < j < i) ==> self.inner@[j]
                            == orig.inner@[j],
                    forall|k: u64|
                        k < 64 ==> (#[trigger] word_bit(self.inner@[p1 as int], k) <==> (if q1 <= k
                        {
                            on
                        } else {
                            word_bit(orig.inner@[p1 as int], k)
                        })),
                    forall|j: int, k: u64|
                        p1 < j < i && k < 64 ==> (#[trigger] word_bit(self.inner@[j], k) == on),
                decreases p2 - i,
            {
                self.set_word(i, 0, 63, on);
                i = i + 1;
            }
            self.set_word(p2, 0, q2, on);
        }
        proof {
            self.lemma_bits_from_words(orig, s as int, e as int, on);
        }
    }

    /// Transfers the word-level description left behind by `set_range`
    /// to the per-granule description the callers use.
    proof fn lemma_bits_from_words(&self, orig: BitMask, s: int, e: int, on: bool)
        requires
            orig.wf(),
            self.wf(),
            self.size == orig.size,
            self.inner@.len() == orig.inner@.len(),
            0 <= s <= e < orig.size,
            forall|j: int|
                0 <= j < orig.inner@.len() && !(s / 64 <= j <= e / 64) ==> self.inner@[j]
                    == orig.inner@[j],
            forall|j: int, k: u64|
                s / 64 <= j <= e / 64 && k < 64 ==> (#[trigger] word_bit(self.inner@[j], k) <==> (
                if (j > s / 64 || k >= s % 64) && (j < e / 64 || k <= e % 64) {
                    on
                } else {
                    word_bit(orig.inner@[j], k)
                })),
        ensures
            forall|g: int|
                0 <= g < orig.size ==> (#[trigger] self.bit(g) <==> (if s <= g <= e {
                    on
                } else {
                    orig.bit(g)
                })),
    {
        lemma_fundamental_div_mod(s, 64);
        lemma_fundamental_div_mod(e, 64);
        assert forall|g: int| 0 <= g < orig.size implies (#[trigger] self.bit(g) <==> (if s <= g
            <= e {
            on
        } else {
            orig.bit(g)
        })) by {
            lemma_fundamental_div_mod(g, 64);
            lemma_word_index_in_range(orig.inner@.len() as int, g);
        }
    }

    /// Extends the mask by `bits` fresh granule bits, all clear: newly
    /// added heap space starts free.
    pub fn grow(&mut self, bits: u64)
        requires
            old(self).wf(),
            bits % 64 == 0,
            old(self).spec_size() + bits <= HEAP_MASK_MAX_BITS,
        ensures
            final(self).wf(),
            final(self).spec_size() == old(self).spec_size() + bits,
            forall|g: int|
                0 <= g < old(self).spec_size() ==> #[trigger] final(self).bit(g) == old(self).bit(g),
            forall|g: int|
                old(self).spec_size() <= g < final(self).spec_size() ==> !(#[trigger] final(self).bit(g)),
    {
        let ghost orig = *self;
        proof {
            lemma_fundamental_div_mod(bits as int, 64);
        }
        let words = bits / 64;
        let mut j: u64 = 0;
        while j < words
            invariant
                j <= words,
                self.size == orig.size,
                self.inner@.len() == orig.inner@.len() + j,
                forall|i: int| 0 <= i < orig.inner@.len() ==> self.inner@[i] == orig.inner@[i],
                forall|i: int|
                    orig.inner@.len() <= i < self.inner@.len() ==> self.inner@[i] == 0u64,
            decreases words - j,
        {
            self.inner.push(0);
            j = j + 1;
        }
        self.size = self.size + bits;
        proof {
            lemma_word_bit_zero();
            lemma_fundamental_div_mod_converse(
                self.size as int,
                64,
                self.inner@.len() as int,
                0,
            );
            assert forall|g: int| 0 <= g < orig.size implies #[trigger] self.bit(g) == orig.bit(
                g,
            ) by {
                lemma_word_index_in_range(orig.inner@.len() as int, g);
            }
            assert forall|g: int| orig.size <= g < self.size implies !(#[trigger] self.bit(g)) by {
                lemma_word_index_in_range(self.inner@.len() as int, g);
                assert(g / 64 >= orig.inner@.len());
                assert(self.inner@[g / 64] == 0u64);
            }
        }
    }
}

/// A granule position below `64 * len` lives in a word index below `len`,
/// and word indices are never negative.
proof fn lemma_word_index_in_range(len: int, pos: int)
    requires
        0 <= pos < 64 * len,
    ensures
        0 <= pos / 64 < len,
        64 * (pos / 64) + pos % 64 == pos,
        0 <= pos % 64 < 64,
{
    lemma_fundamental_div_mod(pos, 64);
}

} // verus!
