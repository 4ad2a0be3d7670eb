//! The block-header memory allocator.
//!
//! Work memory is small enough to address with 16 bits, so per-block
//! overhead is a single word: the top bit is the free flag, the low 15 bits
//! the data size in 2-byte words. The heap is one contiguous byte arena,
//! partitioned without gaps or overlaps into blocks: a header word, then its
//! data; the next header sits immediately after the data, and the last
//! block's data ends exactly at the arena's end.
//!
//! Allocation walks the blocks from the start, merging runs of free blocks
//! as it goes (coalescing is lazy: freeing only flips the free bit), and
//! carves each request from the *tail* of the first free block whose tail
//! can host it at the requested alignment. Because a request is only ever
//! matched against a single contiguous free run, allocation can fail even
//! when the total free space would suffice; that is part of the design.
//!
//! The arena is addressed by bounds-checked offsets: an "address" returned
//! by [`MDSpecializeAlloc::allocate`] is a byte offset into the arena.

use vstd::prelude::*;

verus! {

/// One block of the heap, as the ghost model sees it: the offset of its
/// header word, its data size in words, and whether it is free.
pub struct Block {
    pub off: int,
    pub words: int,
    pub free: bool,
}

/// The header word at offset `o`: two bytes, high byte first.
pub open spec fn word_at(mem: Seq<u8>, o: int) -> int {
    (mem[o] as int) * 256 + (mem[o + 1] as int)
}

/// Data size in words of the block headed at `o` (low 15 bits).
pub open spec fn hdr_words(mem: Seq<u8>, o: int) -> int {
    word_at(mem, o) % 0x8000
}

/// Free flag of the block headed at `o` (top bit).
pub open spec fn hdr_free(mem: Seq<u8>, o: int) -> bool {
    word_at(mem, o) >= 0x8000
}

/// Offset of the header that follows the block headed at `o`.
pub open spec fn next_off(mem: Seq<u8>, o: int) -> int {
    o + 2 + 2 * hdr_words(mem, o)
}

/// The chain of headers starting at `o` partitions `[o, mem.len())`
/// exactly: each block lies within the arena and the last one ends at its
/// end.
pub open spec fn chain_ok(mem: Seq<u8>, o: int) -> bool
    decreases mem.len() - o,
    when 0 <= o <= mem.len()
{
    if o == mem.len() {
        true
    } else if o + 2 > mem.len() {
        false
    } else if next_off(mem, o) > mem.len() {
        false
    } else {
        chain_ok(mem, next_off(mem, o))
    }
}

/// The blocks headed at `o` and after, in address order.
pub open spec fn blocks_from(mem: Seq<u8>, o: int) -> Seq<Block>
    decreases mem.len() - o,
    when 0 <= o <= mem.len()
{
    if o + 2 > mem.len() {
        Seq::empty()
    } else if next_off(mem, o) > mem.len() {
        Seq::empty()
    } else {
        seq![Block { off: o, words: hdr_words(mem, o), free: hdr_free(mem, o) }] + blocks_from(
            mem,
            next_off(mem, o),
        )
    }
}

/// Total free data bytes of a block list.
pub open spec fn free_bytes_of(bs: Seq<Block>) -> int
    decreases bs.len(),
{
    if bs.len() == 0 {
        0
    } else {
        (if bs[0].free {
            2 * bs[0].words
        } else {
            0
        }) + free_bytes_of(bs.drop_first())
    }
}

/// The even alignment actually used for carving: data offsets are word
/// granular, so an odd request is widened.
pub open spec fn carve_align(align: int) -> int {
    if align % 2 == 0 {
        align
    } else {
        2 * align
    }
}

/// The data offset at which `size` bytes at alignment `align` would be
/// carved from the tail of a block of `words` words headed at `off`.
pub open spec fn fit_ptr(off: int, words: int, size: int, align: int) -> int {
    let e = off + 2 + 2 * words;
    ((e - size) / carve_align(align)) * carve_align(align)
}

/// Whether the tail of a block of `words` words headed at `off` can host
/// `size` bytes at alignment `align`: the aligned-down data offset must
/// leave room for a header at or after the block's own header.
pub open spec fn fits(off: int, words: int, size: int, align: int) -> bool {
    size <= 2 * words && fit_ptr(off, words, size, align) >= off + 2
}

/// The allocation scan over a block list: skip used blocks; merge a free
/// block with a free successor (absorbing the successor's header word);
/// carve from the tail of the first maximal free block that fits, marking
/// the carved block used and shrinking the original block to what precedes it (or
/// taking the block whole when the carve starts at its data); otherwise
/// move on. The result is the block list after the scan and the carved data
/// offset, if any.
pub open spec fn spec_scan(bs: Seq<Block>, size: int, align: int) -> (Seq<Block>, Option<int>)
    decreases bs.len(),
{
    if bs.len() == 0 {
        (bs, None::<int>)
    } else if !bs[0].free {
        let r = spec_scan(bs.drop_first(), size, align);
        (seq![bs[0]] + r.0, r.1)
    } else if bs.len() >= 2 && bs[1].free {
        spec_scan(
            seq![Block { off: bs[0].off, words: bs[0].words + bs[1].words + 1, free: true }]
                + bs.skip(2),
            size,
            align,
        )
    } else if fits(bs[0].off, bs[0].words, size, align) {
        let off = bs[0].off;
        let w = bs[0].words;
        let e = off + 2 + 2 * w;
        let p = fit_ptr(off, w, size, align);
        if p == off + 2 {
            (seq![Block { off, words: w, free: false }] + bs.drop_first(), Some(p))
        } else {
            (
                seq![
                    Block { off, words: (p - off - 4) / 2, free: true },
                    Block { off: p - 2, words: (e - p) / 2, free: false },
                ] + bs.drop_first(),
                Some(p),
            )
        }
    } else {
        let r = spec_scan(bs.drop_first(), size, align);
        (seq![bs[0]] + r.0, r.1)
    }
}

/// Parsing depends only on the bytes at and after `o`.
pub proof fn lemma_agree_suffix(m1: Seq<u8>, m2: Seq<u8>, o: int)
    requires
        m1.len() == m2.len(),
        0 <= o <= m1.len(),
        forall|i: int| o <= i < m1.len() ==> m1[i] == m2[i],
    ensures
        blocks_from(m1, o) == blocks_from(m2, o),
        chain_ok(m1, o) == chain_ok(m2, o),
    decreases m1.len() - o,
{
    if o + 2 > m1.len() {
        assert(blocks_from(m1, o) =~= blocks_from(m2, o));
    } else {
        assert(word_at(m1, o) == word_at(m2, o));
        if next_off(m1, o) > m1.len() {
            assert(blocks_from(m1, o) =~= blocks_from(m2, o));
        } else {
            lemma_agree_suffix(m1, m2, next_off(m1, o));
            assert(blocks_from(m1, o) =~= blocks_from(m2, o));
        }
    }
}

/// Shape of a well-formed chain: consecutive blocks tile the suffix, every
/// block lies in bounds, and the last one ends at the arena's end.
pub proof fn lemma_blocks_shape(mem: Seq<u8>, o: int)
    requires
        0 <= o <= mem.len(),
        chain_ok(mem, o),
    ensures
        o == mem.len() <==> blocks_from(mem, o).len() == 0,
        blocks_from(mem, o).len() > 0 ==> blocks_from(mem, o)[0] == (Block {
            off: o,
            words: hdr_words(mem, o),
            free: hdr_free(mem, o),
        }),
        forall|i: int|
            0 <= i < blocks_from(mem, o).len() ==> (#[trigger] blocks_from(mem, o)[i]).off >= o
                && blocks_from(mem, o)[i].words >= 0 && blocks_from(mem, o)[i].off + 2 + 2
                * blocks_from(mem, o)[i].words <= mem.len(),
        forall|i: int|
            0 <= i < blocks_from(mem, o).len() ==> (#[trigger] blocks_from(mem, o)[i]).words
                == hdr_words(mem, blocks_from(mem, o)[i].off) && blocks_from(mem, o)[i].free
                == hdr_free(mem, blocks_from(mem, o)[i].off),
        forall|i: int|
            0 <= i < blocks_from(mem, o).len() - 1 ==> (#[trigger] blocks_from(mem, o)[i + 1]).off
                == blocks_from(mem, o)[i].off + 2 + 2 * blocks_from(mem, o)[i].words,
        blocks_from(mem, o).len() > 0 ==> {
            let last = blocks_from(mem, o).last();
            last.off + 2 + 2 * last.words == mem.len()
        },
    decreases mem.len() - o,
{
    if o == mem.len() {
    } else {
        let nxt = next_off(mem, o);
        lemma_blocks_shape(mem, nxt);
        let bs = blocks_from(mem, o);
        let rest = blocks_from(mem, nxt);
        assert(bs == seq![
            Block { off: o, words: hdr_words(mem, o), free: hdr_free(mem, o) },
        ] + rest);
        assert(word_at(mem, o) >= 0);
        if rest.len() == 0 {
            assert(nxt == mem.len());
            assert(bs.last() == bs[0]);
        } else {
            assert(bs.last() == rest.last());
            assert forall|i: int|
                0 <= i < bs.len() - 1 implies (#[trigger] bs[i + 1]).off == bs[i].off + 2 + 2
                * bs[i].words by {
                if i == 0 {
                    assert(bs[1] == rest[0]);
                } else {
                    assert(bs[i] == rest[i - 1] && bs[i + 1] == rest[i]);
                    assert((#[trigger] rest[(i - 1) + 1]).off == rest[i - 1].off + 2 + 2 * rest[i
                        - 1].words);
                }
            }
        }
        assert forall|i: int|
            0 <= i < bs.len() implies (#[trigger] bs[i]).words == hdr_words(mem, bs[i].off) && bs[
        i].free == hdr_free(mem, bs[i].off) by {
            if i > 0 {
                assert(bs[i] == rest[i - 1]);
            }
        }
    }
}

/// The fixed-hardware allocator: one contiguous arena of at most 64 kB,
/// partitioned into blocks by 16-bit headers stored in the arena itself.
pub struct MDSpecializeAlloc {
    mem: Vec<u8>,
}

/// A decoded block header word: free flag in the top bit, data size in
/// words in the low fifteen.
#[derive(Debug, Clone, Copy, PartialEq, Eq, Structural)]
pub struct BlockHeader(pub u16);

impl BlockHeader {
    /// True when the block's data is free.
    pub fn is_free(&self) -> (r: bool)
        ensures
            r == (self.0 >= 0x8000),
    {
        self.0 >= 0x8000
    }

    /// The block's data size in bytes.
    pub fn size(&self) -> (r: usize)
        ensures
            r == 2 * ((self.0 as int) % 0x8000),
    {
        proof {
            assert((self.0 as int) % 0x8000 < 0x8000);
        }
        2 * ((self.0 % 0x8000) as usize)
    }

    /// The offset of the next block's header after the block headed at `o`,
    /// or nothing when this block's data ends exactly at the heap's end.
    pub fn next(&self, o: usize, heap: &MDSpecializeAlloc) -> (r: Option<usize>)
        requires
            o + 2 + 2 * ((self.0 as int) % 0x8000) <= heap.spec_size(),
            heap.spec_size() <= 0x10000,
        ensures
            r == if o + 2 + 2 * ((self.0 as int) % 0x8000) == heap.spec_size() {
                Option::<usize>::None
            } else {
                Some((o + 2 + 2 * ((self.0 as int) % 0x8000)) as usize)
            },
    {
        let n = heap.size();
        let nxt = o + 2 + self.size();
        if nxt == n {
            None
        } else {
            Some(nxt)
        }
    }
}

impl MDSpecializeAlloc {
    /// The raw arena bytes.
    pub closed spec fn view(&self) -> Seq<u8> {
        self.mem@
    }

    /// The arena size in bytes.
    pub open spec fn spec_size(&self) -> int {
        self.view().len() as int
    }

    /// A sound heap: even size within the addressable span, tiled by a
    /// valid block chain from offset zero.
    pub open spec fn wf(&self) -> bool {
        &&& 2 <= self.view().len() <= 0x10000
        &&& self.view().len() % 2 == 0
        &&& chain_ok(self.view(), 0)
    }

    /// The heap's blocks in address order.
    pub open spec fn blocks(&self) -> Seq<Block> {
        blocks_from(self.view(), 0)
    }

    /// Total free data bytes (not counting headers).
    pub open spec fn spec_free_bytes(&self) -> int {
        free_bytes_of(self.blocks())
    }

    /// An arena of `size` zeroed bytes. Zero bytes parse as a chain of
    /// zero-length used blocks, so the heap is well-formed but unusable
    /// until [`Self::init`] plants the root free block.
    pub fn new(size: usize) -> (r: Self)
        requires
            2 <= size <= 0x10000,
            size % 2 == 0,
        ensures
            r.wf(),
            r.spec_size() == size,
    {
        let mut mem: Vec<u8> = Vec::new();
        let mut i: usize = 0;
        while i < size
            invariant
                i <= size,
                mem@.len() == i as int,
                forall|j: int| 0 <= j < i ==> mem@[j] == 0u8,
            decreases size - i,
        {
            mem.push(0u8);
            i = i + 1;
        }
        let r = MDSpecializeAlloc { mem };
        proof {
            lemma_zero_chain(r.mem@, 0);
        }
        r
    }

    /// Read the header at `o`: (free flag, data words).
    fn read_header(&self, o: usize) -> (r: (bool, usize))
        requires
            o + 2 <= self.view().len(),
        ensures
            r.0 == hdr_free(self.view(), o as int),
            r.1 == hdr_words(self.view(), o as int),
            r.1 < 0x8000,
    {
        let _arena_len = self.mem.len();
        let hi = self.mem[o];
        let lo = self.mem[o + 1];
        let w: u16 = (hi as u16) * 256 + (lo as u16);
        (w >= 0x8000, (w % 0x8000) as usize)
    }

    /// The decoded header of the block at offset `o`.
    pub fn header_at(&self, o: usize) -> (r: BlockHeader)
        requires
            o + 2 <= self.view().len(),
        ensures
            r.0 == word_at(self.view(), o as int),
            (r.0 >= 0x8000) == hdr_free(self.view(), o as int),
            (r.0 as int) % 0x8000 == hdr_words(self.view(), o as int),
    {
        let _arena_len = self.mem.len();
        let hi = self.mem[o];
        let lo = self.mem[o + 1];
        BlockHeader((hi as u16) * 256 + (lo as u16))
    }

    /// Write the header at `o`, leaving every other byte unchanged.
    fn write_header(&mut self, o: usize, words: usize, free: bool)
        requires
            o + 2 <= old(self).view().len(),
            words < 0x8000,
        ensures
            final(self).view().len() == old(self).view().len(),
            forall|i: int|
                0 <= i < old(self).view().len() && i != o && i != o + 1 ==> final(self).view()[i]
                    == old(self).view()[i],
            word_at(final(self).view(), o as int) == (if free {
                0x8000 + words
            } else {
                words as int
            }),
            hdr_words(final(self).view(), o as int) == words,
            hdr_free(final(self).view(), o as int) == free,
            next_off(final(self).view(), o as int) == o + 2 + 2 * words,
    {
        let _arena_len = self.mem.len();
        let w: u16 = if free {
            (0x8000 + words) as u16
        } else {
            words as u16
        };
        self.mem.set(o, (w / 256) as u8);
        self.mem.set(o + 1, (w % 256) as u8);
        proof {
            assert(word_at(self.mem@, o as int) == ((w / 256) as int) * 256 + ((w % 256) as int));
            assert(((w / 256) as int) * 256 + ((w % 256) as int) == w as int);
        }
    }

    /// Plant the root block: one free block spanning the whole arena.
    pub fn init(&mut self)
        requires
            old(self).wf(),
        ensures
            final(self).wf(),
            final(self).spec_size() == old(self).spec_size(),
            final(self).blocks() == seq![
                Block { off: 0, words: (old(self).spec_size() - 2) / 2, free: true },
            ],
            final(self).spec_free_bytes() == old(self).spec_size() - 2,
    {
        let words = (self.mem.len() - 2) / 2;
        self.write_header(0, words, true);
        proof {
            let m = self.view();
            assert(next_off(m, 0) == m.len());
            assert(chain_ok(m, m.len() as int));
            assert(blocks_from(m, m.len() as int) =~= Seq::<Block>::empty());
            assert(self.blocks() =~= seq![
                Block { off: 0, words: (old(self).spec_size() - 2) / 2, free: true },
            ]);
            assert(free_bytes_of(self.blocks().drop_first()) == 0);
        }
    }

    /// The arena size in bytes.
    pub fn size(&self) -> (r: usize)
        ensures
            r == self.spec_size(),
    {
        self.mem.len()
    }

    /// Read one data byte.
    pub fn read_byte(&self, o: usize) -> (r: u8)
        requires
            o < self.view().len(),
        ensures
            r == self.view()[o as int],
    {
        self.mem[o]
    }

    /// Free the allocation whose data begins at `ptr`: flip the free bit of
    /// the header just before it. Constant time; no merging happens here —
    /// adjacent free blocks coalesce during a later allocation scan. The
    /// total free bytes grow by exactly the block's data size.
    pub fn deallocate(&mut self, ptr: usize, size: usize, align: usize)
        requires
            old(self).wf(),
            ptr >= 2,
            exists|i: int|
                0 <= i < old(self).blocks().len() && (#[trigger] old(self).blocks()[i]).off == ptr
                    - 2 && !old(self).blocks()[i].free,
        ensures
            final(self).wf(),
            final(self).spec_size() == old(self).spec_size(),
            ({
                let i = choose|i: int|
                    0 <= i < old(self).blocks().len() && (#[trigger] old(self).blocks()[i]).off
                        == ptr - 2 && !old(self).blocks()[i].free;
                final(self).blocks() == old(self).blocks().update(
                    i,
                    Block { free: true, ..old(self).blocks()[i] },
                )
            }),
            final(self).spec_free_bytes() == old(self).spec_free_bytes() + ({
                let i = choose|i: int|
                    0 <= i < old(self).blocks().len() && (#[trigger] old(self).blocks()[i]).off
                        == ptr - 2 && !old(self).blocks()[i].free;
                2 * old(self).blocks()[i].words
            }),
            forall|j: int|
                0 <= j < old(self).view().len() && j != ptr - 2 && j != ptr - 1
                    ==> final(self).view()[j] == old(self).view()[j],
    {
        let ghost i = choose|i: int|
            0 <= i < old(self).blocks().len() && (#[trigger] old(self).blocks()[i]).off == ptr - 2
                && !old(self).blocks()[i].free;
        proof {
            lemma_blocks_shape(old(self).view(), 0);
        }
        let (_, words) = self.read_header(ptr - 2);
        self.write_header(ptr - 2, words, true);
        proof {
            lemma_set_free(old(self).view(), self.view(), 0, i);
            lemma_free_bytes_update(old(self).blocks(), i);
        }
    }
}

/// The two byte sequences agree on `[lo, hi)`.
pub open spec fn range_eq(m1: Seq<u8>, m2: Seq<u8>, lo: int, hi: int) -> bool {
    forall|j: int| lo <= j < hi ==> m1[j] == m2[j]
}

/// Absorbing a free successor into a free block (its size grows by the
/// successor's words plus its header word) keeps the chain valid and drops
/// one block from the list.
#[verifier::rlimit(100)]
proof fn lemma_merge_step(m1: Seq<u8>, m2: Seq<u8>, o: int)
    requires
        m1.len() == m2.len(),
        0 <= o,
        o + 2 <= m1.len(),
        chain_ok(m1, o),
        hdr_free(m1, o),
        next_off(m1, o) < m1.len(),
        hdr_free(m1, next_off(m1, o)),
        forall|j: int| 0 <= j < m1.len() && j != o && j != o + 1 ==> m1[j] == m2[j],
        hdr_words(m2, o) == hdr_words(m1, o) + hdr_words(m1, next_off(m1, o)) + 1,
        hdr_free(m2, o),
    ensures
        chain_ok(m2, o),
        blocks_from(m1, o).len() >= 2,
        blocks_from(m2, o) == seq![Block { off: o, words: hdr_words(m2, o), free: true }]
            + blocks_from(m1, o).skip(2),
{
    let n1 = next_off(m1, o);
    let n2 = next_off(m1, n1);
    assert(chain_ok(m1, n1));
    assert(n1 + 2 <= m1.len() && n2 <= m1.len());
    assert(next_off(m2, o) == n2);
    lemma_agree_suffix(m1, m2, n2);
    assert(chain_ok(m2, o));
    assert(blocks_from(m1, o) == seq![
        Block { off: o, words: hdr_words(m1, o), free: hdr_free(m1, o) },
    ] + blocks_from(m1, n1));
    assert(blocks_from(m1, n1) == seq![
        Block { off: n1, words: hdr_words(m1, n1), free: hdr_free(m1, n1) },
    ] + blocks_from(m1, n2));
    assert(blocks_from(m2, o) == seq![
        Block { off: o, words: hdr_words(m2, o), free: hdr_free(m2, o) },
    ] + blocks_from(m2, n2));
    assert(blocks_from(m1, o).skip(2) =~= blocks_from(m1, n2));
    assert(blocks_from(m2, o) =~= seq![Block { off: o, words: hdr_words(m2, o), free: true }]
        + blocks_from(m1, o).skip(2));
}

/// Marking a free block used, size unchanged, replaces just its list entry.
proof fn lemma_take_whole(m1: Seq<u8>, m2: Seq<u8>, o: int)
    requires
        m1.len() == m2.len(),
        0 <= o,
        o + 2 <= m1.len(),
        chain_ok(m1, o),
        forall|j: int| 0 <= j < m1.len() && j != o && j != o + 1 ==> m1[j] == m2[j],
        hdr_words(m2, o) == hdr_words(m1, o),
        !hdr_free(m2, o),
    ensures
        chain_ok(m2, o),
        blocks_from(m2, o) == seq![Block { off: o, words: hdr_words(m1, o), free: false }]
            + blocks_from(m1, o).drop_first(),
{
    let n1 = next_off(m1, o);
    assert(next_off(m2, o) == n1);
    lemma_agree_suffix(m1, m2, n1);
    assert(blocks_from(m2, o) =~= seq![Block { off: o, words: hdr_words(m1, o), free: false }]
        + blocks_from(m1, o).drop_first());
}

/// Carving the tail of a free block: a new used header goes in at `p - 2`
/// and the original block shrinks to what precedes it. The chain stays
/// valid; the one list entry becomes two.
#[verifier::rlimit(100)]
proof fn lemma_carve(m1: Seq<u8>, m2: Seq<u8>, o: int, p: int)
    requires
        m1.len() == m2.len(),
        0 <= o,
        o % 2 == 0,
        p % 2 == 0,
        o + 2 <= m1.len(),
        chain_ok(m1, o),
        hdr_free(m1, o),
        o + 4 <= p,
        p <= next_off(m1, o),
        forall|j: int|
            0 <= j < m1.len() && j != o && j != o + 1 && j != p - 2 && j != p - 1 ==> m1[j]
                == m2[j],
        hdr_words(m2, o) == (p - o - 4) / 2,
        hdr_free(m2, o),
        hdr_words(m2, p - 2) == (next_off(m1, o) - p) / 2,
        !hdr_free(m2, p - 2),
    ensures
        chain_ok(m2, o),
        blocks_from(m2, o) == seq![
            Block { off: o, words: (p - o - 4) / 2, free: true },
            Block { off: p - 2, words: (next_off(m1, o) - p) / 2, free: false },
        ] + blocks_from(m1, o).drop_first(),
{
    let e = next_off(m1, o);
    assert(e % 2 == 0);
    assert(2 * ((p - o - 4) / 2) == p - o - 4);
    assert(2 * ((e - p) / 2) == e - p);
    assert(next_off(m2, o) == p - 2);
    assert(next_off(m2, p - 2) == e);
    lemma_agree_suffix(m1, m2, e);
    assert(chain_ok(m2, e) && blocks_from(m2, e) == blocks_from(m1, e));
    assert(chain_ok(m1, e));
    assert(chain_ok(m2, p - 2));
    assert(chain_ok(m2, o));
    assert(blocks_from(m2, p - 2) == seq![
        Block { off: p - 2, words: hdr_words(m2, p - 2), free: hdr_free(m2, p - 2) },
    ] + blocks_from(m2, e));
    assert(blocks_from(m2, o) == seq![
        Block { off: o, words: hdr_words(m2, o), free: hdr_free(m2, o) },
    ] + blocks_from(m2, p - 2));
    assert(blocks_from(m1, o) == seq![
        Block { off: o, words: hdr_words(m1, o), free: hdr_free(m1, o) },
    ] + blocks_from(m1, e));
    assert(blocks_from(m1, o).drop_first() =~= blocks_from(m1, e));
    assert(blocks_from(m2, o) =~= seq![
        Block { off: o, words: (p - o - 4) / 2, free: true },
        Block { off: p - 2, words: (e - p) / 2, free: false },
    ] + blocks_from(m1, o).drop_first());
}

/// A used head block passes through the scan unchanged.
proof fn lemma_scan_cons_used(b: Block, rest: Seq<Block>, size: int, align: int)
    requires
        !b.free,
    ensures
        spec_scan(seq![b] + rest, size, align) == (
            seq![b] + spec_scan(rest, size, align).0,
            spec_scan(rest, size, align).1,
        ),
{
    assert((seq![b] + rest).drop_first() =~= rest);
}

/// A maximal free head block that cannot host the layout passes through
/// the scan unchanged.
proof fn lemma_scan_cons_nofit(b: Block, rest: Seq<Block>, size: int, align: int)
    requires
        b.free,
        rest.len() == 0 || !rest[0].free,
        !fits(b.off, b.words, size, align),
    ensures
        spec_scan(seq![b] + rest, size, align) == (
            seq![b] + spec_scan(rest, size, align).0,
            spec_scan(rest, size, align).1,
        ),
{
    assert((seq![b] + rest).drop_first() =~= rest);
}

/// If a scan leaves the bytes before a block's successor untouched, the
/// block itself still heads the final chain.
proof fn lemma_cons_after(m_call: Seq<u8>, m_fin: Seq<u8>, o: int)
    requires
        m_call.len() == m_fin.len(),
        0 <= o,
        o + 2 <= m_call.len(),
        next_off(m_call, o) <= m_call.len(),
        chain_ok(m_fin, next_off(m_call, o)),
        forall|j: int| 0 <= j < next_off(m_call, o) ==> m_fin[j] == m_call[j],
    ensures
        word_at(m_fin, o) == word_at(m_call, o),
        chain_ok(m_fin, o),
        blocks_from(m_fin, o) == seq![
            Block { off: o, words: hdr_words(m_call, o), free: hdr_free(m_call, o) },
        ] + blocks_from(m_fin, next_off(m_call, o)),
{
    assert(word_at(m_fin, o) == word_at(m_call, o));
    assert(next_off(m_fin, o) == next_off(m_call, o));
    assert(blocks_from(m_fin, o) =~= seq![
        Block { off: o, words: hdr_words(m_call, o), free: hdr_free(m_call, o) },
    ] + blocks_from(m_fin, next_off(m_call, o)));
}

impl MDSpecializeAlloc {
    /// Merge every free block immediately following the free block at `o`
    /// into it, absorbing their headers. Returns the merged size in words.
    /// Afterwards the block at `o` is a maximal free run: its successor, if
    /// any, is used.
    #[verifier::rlimit(100)]
    #[verifier::spinoff_prover]
    fn coalesce_at(&mut self, o: usize, w0: usize, size: usize, align: usize) -> (w: usize)
        requires
            old(self).view().len() <= 0x10000,
            old(self).view().len() % 2 == 0,
            o % 2 == 0,
            o + 2 <= old(self).view().len(),
            chain_ok(old(self).view(), o as int),
            hdr_free(old(self).view(), o as int),
            hdr_words(old(self).view(), o as int) == w0,
            w0 < 0x8000,
        ensures
            final(self).view().len() == old(self).view().len(),
            forall|j: int|
                0 <= j < old(self).view().len() && j != o && j != o + 1 ==> final(self).view()[j]
                    == old(self).view()[j],
            chain_ok(final(self).view(), o as int),
            hdr_free(final(self).view(), o as int),
            hdr_words(final(self).view(), o as int) == w,
            w < 0x8000,
            o + 2 + 2 * w == old(self).view().len() || (o + 2 + 2 * w + 2 <= old(
                self,
            ).view().len() && !hdr_free(final(self).view(), o as int + 2 + 2 * w)),
            spec_scan(blocks_from(final(self).view(), o as int), size as int, align as int)
                == spec_scan(blocks_from(old(self).view(), o as int), size as int, align as int),
            exists|k: int|
                1 <= k <= blocks_from(old(self).view(), o as int).len() && (forall|i: int|
                    0 <= i < k ==> (#[trigger] blocks_from(old(self).view(), o as int)[i]).free)
                    && blocks_from(final(self).view(), o as int) == seq![
                    Block { off: o as int, words: w as int, free: true },
                ] + blocks_from(old(self).view(), o as int).skip(k),
    {
        let n = self.mem.len();
        let ghost bs_entry = blocks_from(old(self).view(), o as int);
        proof {
            lemma_blocks_shape(old(self).view(), o as int);
            assert(bs_entry.skip(1) =~= bs_entry.drop_first());
        }
        let mut w = w0;
        let ghost mut k: int = 1;
        loop
            invariant
                self.view().len() == n,
                n <= 0x10000,
                n % 2 == 0,
                o % 2 == 0,
                o + 2 <= n,
                chain_ok(self.view(), o as int),
                hdr_free(self.view(), o as int),
                hdr_words(self.view(), o as int) == w,
                w < 0x8000,
                forall|j: int|
                    0 <= j < n && j != o && j != o + 1 ==> self.view()[j] == old(self).view()[j],
                bs_entry == blocks_from(old(self).view(), o as int),
                1 <= k <= bs_entry.len(),
                forall|i: int| 0 <= i < k ==> (#[trigger] bs_entry[i]).free,
                blocks_from(self.view(), o as int) == seq![
                    Block { off: o as int, words: w as int, free: true },
                ] + bs_entry.skip(k),
                spec_scan(blocks_from(self.view(), o as int), size as int, align as int)
                    == spec_scan(bs_entry, size as int, align as int),
            ensures
                o + 2 + 2 * w == n || (o + 2 + 2 * w + 2 <= n && !hdr_free(
                    self.view(),
                    o as int + 2 + 2 * w,
                )),
            decreases n - (o + 2 + 2 * w),
        {
            let nxt = o + 2 + 2 * w;
            if nxt == n {
                break;
            }
            let (nfree, nw) = self.read_header(nxt);
            if !nfree {
                break;
            }
            let ghost m_prev = self.view();
            proof {
                assert(chain_ok(m_prev, nxt as int));
                assert(next_off(m_prev, nxt as int) <= n);
            }
            let neww = w + nw + 1;
            self.write_header(o, neww, true);
            proof {
                lemma_merge_step(m_prev, self.view(), o as int);
                lemma_blocks_shape(m_prev, o as int);
                let bsp = blocks_from(m_prev, o as int);
                let bsn = blocks_from(self.view(), o as int);
                assert(bsp[1] == bs_entry.skip(k)[0]);
                assert(bsp[1].free && bsp[1].words == nw as int);
                assert(spec_scan(bsp, size as int, align as int) == spec_scan(
                    seq![
                        Block {
                            off: bsp[0].off,
                            words: bsp[0].words + bsp[1].words + 1,
                            free: true,
                        },
                    ] + bsp.skip(2),
                    size as int,
                    align as int,
                ));
                assert(bsn =~= seq![
                    Block { off: bsp[0].off, words: bsp[0].words + bsp[1].words + 1, free: true },
                ] + bsp.skip(2));
                assert(bsp.skip(2) =~= bs_entry.skip(k).drop_first());
                assert(bs_entry.skip(k).drop_first() =~= bs_entry.skip(k + 1));
                assert(bsn =~= seq![Block { off: o as int, words: neww as int, free: true }]
                    + bs_entry.skip(k + 1));
                assert(bs_entry[k].free) by {
                    assert(bs_entry[k] == bs_entry.skip(k)[0]);
                }
                k = k + 1;
            }
            w = neww;
        }
        w
    }

    /// Try to carve `size` bytes at `align` from the tail of the maximal
    /// free block at `o`. On success the heap changes exactly as the scan's
    /// carve step says; on failure nothing changes at all.
    #[verifier::rlimit(100)]
    #[verifier::spinoff_prover]
    fn carve_at(&mut self, o: usize, w: usize, size: usize, align: usize) -> (r: Option<usize>)
        requires
            old(self).view().len() <= 0x10000,
            old(self).view().len() % 2 == 0,
            o % 2 == 0,
            o + 2 <= old(self).view().len(),
            chain_ok(old(self).view(), o as int),
            hdr_free(old(self).view(), o as int),
            hdr_words(old(self).view(), o as int) == w,
            w < 0x8000,
            1 <= align <= 0x8000,
            o + 2 + 2 * w == old(self).view().len() || !hdr_free(
                old(self).view(),
                o as int + 2 + 2 * w,
            ),
        ensures
            final(self).view().len() == old(self).view().len(),
            forall|j: int|
                0 <= j < old(self).view().len() && !(o <= j < o + 2 + 2 * w)
                    ==> final(self).view()[j] == old(self).view()[j],
            (match r {
                Some(p) => fits(o as int, w as int, size as int, align as int) && p == fit_ptr(
                    o as int,
                    w as int,
                    size as int,
                    align as int,
                ) && chain_ok(final(self).view(), o as int) && blocks_from(
                    final(self).view(),
                    o as int,
                ) == spec_scan(blocks_from(old(self).view(), o as int), size as int, align as int).0
                    && spec_scan(
                    blocks_from(old(self).view(), o as int),
                    size as int,
                    align as int,
                ).1 == Some(p as int),
                None => !fits(o as int, w as int, size as int, align as int) && final(self).view()
                    == old(self).view(),
            }),
    {
        let n = self.mem.len();
        let e = o + 2 + 2 * w;
        let ghost bs_now = blocks_from(old(self).view(), o as int);
        proof {
            lemma_blocks_shape(old(self).view(), o as int);
            lemma_blocks_shape(old(self).view(), e as int);
            assert(bs_now[0] == (Block { off: o as int, words: w as int, free: true }));
            assert(bs_now.drop_first() =~= blocks_from(old(self).view(), e as int));
            if bs_now.len() >= 2 {
                assert(bs_now[1] == blocks_from(old(self).view(), e as int)[0]);
                assert(!bs_now[1].free);
            }
        }
        if size > 2 * w {
            return None;
        }
        let a2 = if align % 2 == 0 {
            align
        } else {
            align * 2
        };
        let q = (e - size) / a2;
        proof {
            vstd::arithmetic::div_mod::lemma_fundamental_div_mod((e - size) as int, a2 as int);
            vstd::arithmetic::div_mod::lemma_mod_pos_bound((e - size) as int, a2 as int);
            assert(a2 * q <= (e - size) as int);
            assert(q * a2 == a2 * q) by (nonlinear_arith);
        }
        let p = q * a2;
        proof {
            assert(p == fit_ptr(o as int, w as int, size as int, align as int));
            assert(p <= e - size);
            let m = a2 as int / 2;
            vstd::arithmetic::div_mod::lemma_fundamental_div_mod(a2 as int, 2);
            assert(a2 as int == 2 * m);
            assert(q * a2 == (q * m) * 2) by (nonlinear_arith)
                requires
                    a2 as int == 2 * m,
            ;
            vstd::arithmetic::div_mod::lemma_mod_multiples_basic(q as int * m, 2);
            assert(p % 2 == 0);
        }
        if p < o + 2 {
            return None;
        }
        proof {
            assert(fits(o as int, w as int, size as int, align as int));
        }
        if p == o + 2 {
            let ghost m_prev = self.view();
            self.write_header(o, w, false);
            proof {
                lemma_take_whole(m_prev, self.view(), o as int);
                assert(spec_scan(bs_now, size as int, align as int) == (
                    seq![Block { off: o as int, words: w as int, free: false }]
                        + bs_now.drop_first(),
                    Some(p as int),
                ));
            }
            Some(p)
        } else {
            let ghost m_prev = self.view();
            self.write_header(p - 2, (e - p) / 2, false);
            let ghost m_mid = self.view();
            self.write_header(o, (p - o - 4) / 2, true);
            proof {
                assert(forall|j: int|
                    0 <= j < n && j != o && j != o + 1 && j != p - 2 && j != p - 1 ==> m_prev[j]
                        == self.view()[j]);
                assert(word_at(self.view(), p - 2 as int) == word_at(m_mid, p - 2 as int));
                lemma_carve(m_prev, self.view(), o as int, p as int);
                assert(spec_scan(bs_now, size as int, align as int) == (
                    seq![
                        Block { off: o as int, words: (p - o - 4) as int / 2, free: true },
                        Block { off: p as int - 2, words: (e - p) as int / 2, free: false },
                    ] + bs_now.drop_first(),
                    Some(p as int),
                ));
            }
            Some(p)
        }
    }

    /// The scan from offset `o`: merge free runs, carve from the first
    /// fitting tail. Returns the carved data offset, if any; the heap's
    /// block list from `o` afterwards equals the specified scan result.
    #[verifier::rlimit(100)]
    #[verifier::spinoff_prover]
    fn alloc_from(&mut self, o: usize, size: usize, align: usize) -> (r: Option<usize>)
        requires
            old(self).view().len() <= 0x10000,
            old(self).view().len() % 2 == 0,
            o % 2 == 0,
            o <= old(self).view().len(),
            chain_ok(old(self).view(), o as int),
            1 <= align <= 0x8000,
        ensures
            final(self).view().len() == old(self).view().len(),
            forall|j: int| 0 <= j < o ==> final(self).view()[j] == old(self).view()[j],
            chain_ok(final(self).view(), o as int),
            blocks_from(final(self).view(), o as int) == spec_scan(
                blocks_from(old(self).view(), o as int),
                size as int,
                align as int,
            ).0,
            (match r {
                Some(p) => spec_scan(
                    blocks_from(old(self).view(), o as int),
                    size as int,
                    align as int,
                ).1 == Some(p as int),
                None => spec_scan(
                    blocks_from(old(self).view(), o as int),
                    size as int,
                    align as int,
                ).1 is None,
            }),
            forall|bi: int|
                0 <= bi < blocks_from(old(self).view(), o as int).len() && !(
                #[trigger] blocks_from(old(self).view(), o as int)[bi]).free ==> range_eq(
                    old(self).view(),
                    final(self).view(),
                    blocks_from(old(self).view(), o as int)[bi].off,
                    blocks_from(old(self).view(), o as int)[bi].off + 2 + 2 * blocks_from(
                        old(self).view(),
                        o as int,
                    )[bi].words,
                ),
        decreases self.view().len() - o, 2int,
    {
        let n = self.mem.len();
        if o == n {
            return None;
        }
        let (free0, w0) = self.read_header(o);
        let ghost bs_entry = blocks_from(old(self).view(), o as int);
        proof {
            lemma_blocks_shape(old(self).view(), o as int);
        }
        if !free0 {
            let nxt = o + 2 + 2 * w0;
            let ghost m_call = self.view();
            let r = self.alloc_from(nxt, size, align);
            proof {
                lemma_cons_after(m_call, self.view(), o as int);
                lemma_scan_cons_used(bs_entry[0], bs_entry.drop_first(), size as int, align as int);
                assert(bs_entry.drop_first() =~= blocks_from(m_call, nxt as int));
                assert(seq![bs_entry[0]] + bs_entry.drop_first() =~= bs_entry);
                assert forall|bi: int|
                    0 <= bi < bs_entry.len() && !(#[trigger] bs_entry[bi]).free implies range_eq(
                    old(self).view(),
                    self.view(),
                    bs_entry[bi].off,
                    bs_entry[bi].off + 2 + 2 * bs_entry[bi].words,
                ) by {
                    if bi > 0 {
                        assert(bs_entry[bi] == blocks_from(m_call, nxt as int)[bi - 1]);
                    }
                }
            }
            return r;
        }
        let w = self.coalesce_at(o, w0, size, align);
        let ghost m_coal = self.view();
        let ghost bs_coal = blocks_from(m_coal, o as int);
        let ghost k = choose|k: int|
            1 <= k <= bs_entry.len() && (forall|i: int|
                0 <= i < k ==> (#[trigger] bs_entry[i]).free) && bs_coal == seq![
                Block { off: o as int, words: w as int, free: true },
            ] + bs_entry.skip(k);
        let r = self.alloc_tail(o, w, size, align);
        proof {
            let e = o + 2 + 2 * (w as int);
            lemma_blocks_shape(m_coal, o as int);
            assert forall|bi: int|
                0 <= bi < bs_entry.len() && !(#[trigger] bs_entry[bi]).free implies range_eq(
                old(self).view(),
                self.view(),
                bs_entry[bi].off,
                bs_entry[bi].off + 2 + 2 * bs_entry[bi].words,
            ) by {
                assert(bi >= k);
                assert(bs_entry[bi] == bs_entry.skip(k)[bi - k]);
                assert(bs_entry[bi] == bs_coal[bi - k + 1]);
                assert(bs_coal[bi - k + 1].off >= o + 2);
                assert(range_eq(old(self).view(), m_coal, bs_entry[bi].off, bs_entry[bi].off + 2
                    + 2 * bs_entry[bi].words));
                assert(range_eq(m_coal, self.view(), bs_entry[bi].off, bs_entry[bi].off + 2 + 2
                    * bs_entry[bi].words));
            }
        }
        r
    }

    /// Handle a maximal free run: carve from its tail if the layout fits,
    /// else leave it free and scan on from the block after it.
    #[verifier::rlimit(100)]
    #[verifier::spinoff_prover]
    fn alloc_tail(&mut self, o: usize, w: usize, size: usize, align: usize) -> (r: Option<usize>)
        requires
            old(self).view().len() <= 0x10000,
            old(self).view().len() % 2 == 0,
            o % 2 == 0,
            o + 2 <= old(self).view().len(),
            chain_ok(old(self).view(), o as int),
            hdr_free(old(self).view(), o as int),
            hdr_words(old(self).view(), o as int) == w,
            w < 0x8000,
            1 <= align <= 0x8000,
            o + 2 + 2 * w == old(self).view().len() || !hdr_free(
                old(self).view(),
                o as int + 2 + 2 * w,
            ),
        ensures
            final(self).view().len() == old(self).view().len(),
            forall|j: int| 0 <= j < o ==> final(self).view()[j] == old(self).view()[j],
            chain_ok(final(self).view(), o as int),
            blocks_from(final(self).view(), o as int) == spec_scan(
                blocks_from(old(self).view(), o as int),
                size as int,
                align as int,
            ).0,
            (match r {
                Some(p) => spec_scan(
                    blocks_from(old(self).view(), o as int),
                    size as int,
                    align as int,
                ).1 == Some(p as int),
                None => spec_scan(
                    blocks_from(old(self).view(), o as int),
                    size as int,
                    align as int,
                ).1 is None,
            }),
            forall|bi: int|
                0 <= bi < blocks_from(old(self).view(), o as int).len() && !(
                #[trigger] blocks_from(old(self).view(), o as int)[bi]).free ==> range_eq(
                    old(self).view(),
                    final(self).view(),
                    blocks_from(old(self).view(), o as int)[bi].off,
                    blocks_from(old(self).view(), o as int)[bi].off + 2 + 2 * blocks_from(
                        old(self).view(),
                        o as int,
                    )[bi].words,
                ),
        decreases self.view().len() - o, 1int,
    {
        let n = self.mem.len();
        let e = o + 2 + 2 * w;
        let ghost bs_now = blocks_from(old(self).view(), o as int);
        proof {
            lemma_blocks_shape(old(self).view(), o as int);
            lemma_blocks_shape(old(self).view(), e as int);
            assert(bs_now.drop_first() =~= blocks_from(old(self).view(), e as int));
        }
        let r = self.carve_at(o, w, size, align);
        match r {
            Some(p) => {
                proof {
                    assert forall|bi: int|
                        0 <= bi < bs_now.len() && !(#[trigger] bs_now[bi]).free implies range_eq(
                        old(self).view(),
                        self.view(),
                        bs_now[bi].off,
                        bs_now[bi].off + 2 + 2 * bs_now[bi].words,
                    ) by {
                        assert(bs_now[bi] == blocks_from(old(self).view(), e as int)[bi - 1]);
                        assert(bs_now[bi].off >= e);
                    }
                }
                Some(p)
            },
            None => { self.alloc_skip(o, w, size, align) },
        }
    }

    /// Scan past a maximal free run that cannot host the layout.
    #[verifier::rlimit(100)]
    #[verifier::spinoff_prover]
    fn alloc_skip(&mut self, o: usize, w: usize, size: usize, align: usize) -> (r: Option<usize>)
        requires
            old(self).view().len() <= 0x10000,
            old(self).view().len() % 2 == 0,
            o % 2 == 0,
            o + 2 <= old(self).view().len(),
            chain_ok(old(self).view(), o as int),
            hdr_free(old(self).view(), o as int),
            hdr_words(old(self).view(), o as int) == w,
            w < 0x8000,
            1 <= align <= 0x8000,
            o + 2 + 2 * w == old(self).view().len() || !hdr_free(
                old(self).view(),
                o as int + 2 + 2 * w,
            ),
            !fits(o as int, w as int, size as int, align as int),
        ensures
            final(self).view().len() == old(self).view().len(),
            forall|j: int| 0 <= j < o ==> final(self).view()[j] == old(self).view()[j],
            chain_ok(final(self).view(), o as int),
            blocks_from(final(self).view(), o as int) == spec_scan(
                blocks_from(old(self).view(), o as int),
                size as int,
                align as int,
            ).0,
            (match r {
                Some(p) => spec_scan(
                    blocks_from(old(self).view(), o as int),
                    size as int,
                    align as int,
                ).1 == Some(p as int),
                None => spec_scan(
                    blocks_from(old(self).view(), o as int),
                    size as int,
                    align as int,
                ).1 is None,
            }),
            forall|bi: int|
                0 <= bi < blocks_from(old(self).view(), o as int).len() && !(
                #[trigger] blocks_from(old(self).view(), o as int)[bi]).free ==> range_eq(
                    old(self).view(),
                    final(self).view(),
                    blocks_from(old(self).view(), o as int)[bi].off,
                    blocks_from(old(self).view(), o as int)[bi].off + 2 + 2 * blocks_from(
                        old(self).view(),
                        o as int,
                    )[bi].words,
                ),
        decreases self.view().len() - o, 0int,
    {
        let e = o + 2 + 2 * w;
        let ghost bs_now = blocks_from(old(self).view(), o as int);
        proof {
            lemma_blocks_shape(old(self).view(), o as int);
            lemma_blocks_shape(old(self).view(), e as int);
            assert(bs_now.drop_first() =~= blocks_from(old(self).view(), e as int));
            if bs_now.len() >= 2 {
                assert(bs_now[1] == blocks_from(old(self).view(), e as int)[0]);
                assert(!bs_now[1].free);
            }
            lemma_scan_cons_nofit(bs_now[0], bs_now.drop_first(), size as int, align as int);
            assert(seq![bs_now[0]] + bs_now.drop_first() =~= bs_now);
        }
        let ghost m_call = self.view();
        let r2 = self.alloc_from(e, size, align);
        proof {
            lemma_cons_after(m_call, self.view(), o as int);
            assert forall|bi: int|
                0 <= bi < bs_now.len() && !(#[trigger] bs_now[bi]).free implies range_eq(
                old(self).view(),
                self.view(),
                bs_now[bi].off,
                bs_now[bi].off + 2 + 2 * bs_now[bi].words,
            ) by {
                assert(bs_now[bi] == blocks_from(m_call, e as int)[bi - 1]);
            }
        }
        r2
    }

    /// Serve an allocation of `size` bytes at alignment `align`. First fit
    /// by block order, carving from the block's tail; free runs coalesce
    /// during the scan. Returns the data offset, or nothing when no single
    /// free run can host the layout — which can happen under fragmentation
    /// even when the total free space would suffice.
    pub fn allocate(&mut self, size: usize, align: usize) -> (r: Option<usize>)
        requires
            old(self).wf(),
            1 <= align <= 0x8000,
        ensures
            final(self).wf(),
            final(self).spec_size() == old(self).spec_size(),
            final(self).blocks() == spec_scan(old(self).blocks(), size as int, align as int).0,
            (match r {
                Some(p) => spec_scan(old(self).blocks(), size as int, align as int).1 == Some(
                    p as int,
                ),
                None => spec_scan(old(self).blocks(), size as int, align as int).1 is None,
            }),
            (match r {
                Some(p) => p % align == 0 && 2 <= p && p + size <= final(self).spec_size()
                    && exists|bi: int|
                    0 <= bi < final(self).blocks().len()
                        && (#[trigger] final(self).blocks()[bi]).off == p - 2
                        && !final(self).blocks()[bi].free
                        && size <= 2 * final(self).blocks()[bi].words,
                None => true,
            }),
            (match r {
                Some(p) => forall|bi: int|
                    0 <= bi < old(self).blocks().len() && !(#[trigger] old(
                        self,
                    ).blocks()[bi]).free ==> (p >= old(self).blocks()[bi].off + 2 + 2 * old(
                        self,
                    ).blocks()[bi].words || old(self).blocks()[bi].off >= p + size),
                None => true,
            }),
            forall|bi: int|
                0 <= bi < old(self).blocks().len() && !(#[trigger] old(self).blocks()[bi]).free
                    ==> range_eq(
                    old(self).view(),
                    final(self).view(),
                    old(self).blocks()[bi].off,
                    old(self).blocks()[bi].off + 2 + 2 * old(self).blocks()[bi].words,
                ),
    {
        let r = self.alloc_from(0, size, align);
        proof {
            if r is Some {
                let p = r.unwrap() as int;
                lemma_blocks_shape(old(self).view(), 0);
                lemma_offs_even(old(self).view(), 0);
                lemma_scan_success(old(self).blocks(), size as int, align as int);
                lemma_blocks_shape(self.view(), 0);
                let bi = choose|bi: int|
                    0 <= bi < self.blocks().len() && (#[trigger] self.blocks()[bi]).off == p - 2
                        && !self.blocks()[bi].free && size <= 2 * self.blocks()[bi].words;
                assert(self.blocks()[bi].off + 2 + 2 * self.blocks()[bi].words
                    <= self.view().len());
            }
        }
        r
    }

    /// Serve an allocation and zero its data. The heap changes exactly as
    /// in [`Self::allocate`], and on success the returned region is zeroed.
    pub fn allocate_zeroed(&mut self, size: usize, align: usize) -> (r: Option<usize>)
        requires
            old(self).wf(),
            1 <= align <= 0x8000,
        ensures
            final(self).wf(),
            final(self).spec_size() == old(self).spec_size(),
            final(self).blocks() == spec_scan(old(self).blocks(), size as int, align as int).0,
            (match r {
                Some(p) => spec_scan(old(self).blocks(), size as int, align as int).1 == Some(
                    p as int,
                ),
                None => spec_scan(old(self).blocks(), size as int, align as int).1 is None,
            }),
            (match r {
                Some(p) => p % align == 0 && 2 <= p && p + size <= final(self).spec_size() && (
                forall|i: int| 0 <= i < size ==> #[trigger] final(self).view()[p + i] == 0),
                None => true,
            }),
            (match r {
                Some(p) => forall|bi: int|
                    0 <= bi < old(self).blocks().len() && !(#[trigger] old(
                        self,
                    ).blocks()[bi]).free ==> (p >= old(self).blocks()[bi].off + 2 + 2 * old(
                        self,
                    ).blocks()[bi].words || old(self).blocks()[bi].off >= p + size),
                None => true,
            }),
            forall|bi: int|
                0 <= bi < old(self).blocks().len() && !(#[trigger] old(self).blocks()[bi]).free
                    ==> range_eq(
                    old(self).view(),
                    final(self).view(),
                    old(self).blocks()[bi].off,
                    old(self).blocks()[bi].off + 2 + 2 * old(self).blocks()[bi].words,
                ),
    {
        let ghost bs0 = old(self).blocks();
        proof {
            lemma_blocks_shape(old(self).view(), 0);
            lemma_offs_even(old(self).view(), 0);
        }
        let r = self.allocate(size, align);
        match r {
            None => None,
            Some(p) => {
                proof {
                    lemma_scan_success(bs0, size as int, align as int);
                }
                let ghost m_alloc = self.view();
                let ghost nbi = choose|bi: int|
                    0 <= bi < self.blocks().len() && (#[trigger] self.blocks()[bi]).off == p as int
                        - 2 && !self.blocks()[bi].free && size <= 2 * self.blocks()[bi].words;
                let n = self.mem.len();
                let mut i: usize = 0;
                while i < size
                    invariant
                        self.view().len() == n,
                        n == m_alloc.len(),
                        i <= size,
                        p >= 2,
                        p + size <= n,
                        chain_ok(self.view(), 0),
                        blocks_from(self.view(), 0) == blocks_from(m_alloc, 0),
                        0 <= nbi < blocks_from(m_alloc, 0).len(),
                        blocks_from(m_alloc, 0)[nbi].off == p as int - 2,
                        size <= 2 * blocks_from(m_alloc, 0)[nbi].words,
                        forall|j: int|
                            0 <= j < n && !(p <= j < p + size) ==> self.view()[j] == m_alloc[j],
                        forall|j: int| p <= j < p + i ==> self.view()[j] == 0,
                    decreases size - i,
                {
                    let ghost m_prev = self.view();
                    self.mem.set(p + i, 0u8);
                    proof {
                        lemma_data_write(m_prev, self.view(), 0, p + i, nbi);
                    }
                    i = i + 1;
                }
                proof {
                    assert forall|bi: int|
                        0 <= bi < bs0.len() && !(#[trigger] bs0[bi]).free implies range_eq(
                        old(self).view(),
                        self.view(),
                        bs0[bi].off,
                        bs0[bi].off + 2 + 2 * bs0[bi].words,
                    ) by {
                        assert(p as int >= bs0[bi].off + 2 + 2 * bs0[bi].words || bs0[bi].off
                            >= p + size);
                    }
                }
                Some(p)
            },
        }
    }

    /// Move an allocation to a new size: allocate the new block, copy the
    /// smaller of the two sizes, and free the old block. When no new block
    /// can be carved, nothing is freed and the old allocation stays intact
    /// (though the scan's coalescing still happened).
    pub fn reallocate(&mut self, ptr: usize, old_size: usize, align: usize, new_size: usize) -> (r:
        Option<usize>)
        requires
            old(self).wf(),
            1 <= align <= 0x8000,
            ptr >= 2,
            exists|i: int|
                0 <= i < old(self).blocks().len() && (#[trigger] old(self).blocks()[i]).off == ptr
                    - 2 && !old(self).blocks()[i].free && old_size <= 2
                    * old(self).blocks()[i].words,
        ensures
            final(self).wf(),
            final(self).spec_size() == old(self).spec_size(),
            ({
                let sc = spec_scan(old(self).blocks(), new_size as int, align as int);
                match r {
                    None => sc.1 is None && final(self).blocks() == sc.0,
                    Some(np) => sc.1 == Some(np as int) && np % align == 0 && 2 <= np && np
                        + new_size <= final(self).spec_size() && (exists|i: int|
                        0 <= i < sc.0.len() && (#[trigger] sc.0[i]).off == ptr - 2 && !sc.0[i].free
                            && final(self).blocks() == sc.0.update(
                            i,
                            Block { free: true, ..sc.0[i] },
                        )) && (forall|i: int|
                        0 <= i < (if old_size < new_size {
                            old_size as int
                        } else {
                            new_size as int
                        }) ==> #[trigger] final(self).view()[np + i] == old(self).view()[ptr
                        + i]),
                }
            }),
            (r is None ==> (forall|bi: int|
                0 <= bi < old(self).blocks().len() && !(#[trigger] old(self).blocks()[bi]).free
                    ==> range_eq(
                    old(self).view(),
                    final(self).view(),
                    old(self).blocks()[bi].off,
                    old(self).blocks()[bi].off + 2 + 2 * old(self).blocks()[bi].words,
                ))),
            (r is Some ==> (forall|bi: int|
                0 <= bi < old(self).blocks().len() && !(#[trigger] old(self).blocks()[bi]).free
                    ==> range_eq(
                    old(self).view(),
                    final(self).view(),
                    old(self).blocks()[bi].off + 2,
                    old(self).blocks()[bi].off + 2 + 2 * old(self).blocks()[bi].words,
                ) && (old(self).blocks()[bi].off != ptr - 2 ==> range_eq(
                    old(self).view(),
                    final(self).view(),
                    old(self).blocks()[bi].off,
                    old(self).blocks()[bi].off + 2 + 2 * old(self).blocks()[bi].words,
                )))),
    {
        let ghost bs0 = old(self).blocks();
        let ghost oi = choose|i: int|
            0 <= i < old(self).blocks().len() && (#[trigger] old(self).blocks()[i]).off == ptr - 2
                && !old(self).blocks()[i].free && old_size <= 2 * old(self).blocks()[i].words;
        proof {
            lemma_blocks_shape(old(self).view(), 0);
            lemma_offs_even(old(self).view(), 0);
        }
        let r = self.allocate(new_size, align);
        match r {
            None => None,
            Some(np) => {
                proof {
                    lemma_scan_success(bs0, new_size as int, align as int);
                    lemma_scan_keeps_used(bs0, new_size as int, align as int, oi);
                }
                let ghost m_alloc = self.view();
                let ghost nbi = choose|bi: int|
                    0 <= bi < self.blocks().len() && (#[trigger] self.blocks()[bi]).off == np as int
                        - 2 && !self.blocks()[bi].free && new_size <= 2 * self.blocks()[bi].words;
                let n = self.mem.len();
                let m = if old_size < new_size {
                    old_size
                } else {
                    new_size
                };
                proof {
                    assert(np as int >= bs0[oi].off + 2 + 2 * bs0[oi].words || bs0[oi].off >= np
                        + new_size);
                    assert(ptr + old_size <= n) by {
                        assert(bs0[oi].off + 2 + 2 * bs0[oi].words <= n);
                    }
                    assert(range_eq(old(self).view(), m_alloc, bs0[oi].off, bs0[oi].off + 2 + 2
                        * bs0[oi].words));
                }
                let mut i: usize = 0;
                while i < m
                    invariant
                        self.view().len() == n,
                        n == m_alloc.len(),
                        i <= m,
                        m <= old_size,
                        m <= new_size,
                        np >= 2,
                        ptr >= 2,
                        np + new_size <= n,
                        ptr + old_size <= n,
                        chain_ok(self.view(), 0),
                        blocks_from(self.view(), 0) == blocks_from(m_alloc, 0),
                        0 <= nbi < blocks_from(m_alloc, 0).len(),
                        blocks_from(m_alloc, 0)[nbi].off == np as int - 2,
                        new_size <= 2 * blocks_from(m_alloc, 0)[nbi].words,
                        forall|j: int|
                            0 <= j < n && !(np <= j < np + m) ==> self.view()[j] == m_alloc[j],
                        forall|j: int|
                            0 <= j < i ==> #[trigger] self.view()[np + j] == old(self).view()[ptr
                            + j],
                        range_eq(old(self).view(), m_alloc, ptr - 2, ptr - 2 + (old_size as int)
                            + 2),
                        np as int >= ptr + old_size || ptr as int - 2 >= np + new_size,
                    decreases m - i,
                {
                    let b = self.read_byte(ptr + i);
                    proof {
                        assert(!(np <= ptr + i < np + m));
                        assert(self.view()[ptr + i] == m_alloc[ptr + i]);
                        assert(m_alloc[ptr + i] == old(self).view()[ptr + i]);
                    }
                    let ghost m_prev = self.view();
                    self.mem.set(np + i, b);
                    proof {
                        lemma_data_write(m_prev, self.view(), 0, np + i, nbi);
                    }
                    i = i + 1;
                }
                let ghost m_copy = self.view();
                proof {
                    let sc0 = spec_scan(bs0, new_size as int, align as int).0;
                    assert(blocks_from(self.view(), 0) == sc0);
                    let j = choose|j: int|
                        0 <= j < sc0.len() && #[trigger] sc0[j] == bs0[oi];
                    assert(self.blocks()[j].off == ptr - 2 && !self.blocks()[j].free
                        && old_size <= 2 * self.blocks()[j].words);
                }
                self.deallocate(ptr, old_size, align);
                proof {
                    assert forall|j: int|
                        0 <= j < (if old_size < new_size {
                            old_size as int
                        } else {
                            new_size as int
                        }) implies #[trigger] self.view()[np + j] == old(self).view()[ptr
                        + j] by {
                        assert(np + j != ptr - 2 && np + j != ptr - 1);
                        assert(self.view()[np + j] == m_copy[np + j]);
                    }
                    assert forall|bi: int|
                        0 <= bi < bs0.len() && !(#[trigger] bs0[bi]).free implies range_eq(
                        old(self).view(),
                        self.view(),
                        bs0[bi].off + 2,
                        bs0[bi].off + 2 + 2 * bs0[bi].words,
                    ) && (bs0[bi].off != ptr - 2 ==> range_eq(
                        old(self).view(),
                        self.view(),
                        bs0[bi].off,
                        bs0[bi].off + 2 + 2 * bs0[bi].words,
                    )) by {
                        let off = bs0[bi].off;
                        let end = off + 2 + 2 * bs0[bi].words;
                        // The carved region avoids every block that was used
                        // before the scan, so the copy never wrote into it.
                        assert(np as int >= end || off >= np + new_size);
                        assert(range_eq(old(self).view(), m_alloc, off, end));
                        if off != ptr - 2 {
                            // Distinct blocks occupy disjoint ranges, so the
                            // freed header at ptr - 2 lies outside this one.
                            assert(bi != oi);
                            if bi < oi {
                                lemma_offs_increase(bs0, bi, oi);
                            } else {
                                lemma_offs_increase(bs0, oi, bi);
                            }
                            assert forall|j: int| off <= j < end implies #[trigger] self.view()[j]
                                == old(self).view()[j] by {
                                assert(!(np <= j < np + m));
                                assert(m_copy[j] == m_alloc[j]);
                                assert(j != ptr - 2 && j != ptr - 1);
                                assert(self.view()[j] == m_copy[j]);
                            }
                        } else {
                            assert forall|j: int|
                                off + 2 <= j < end implies #[trigger] self.view()[j] == old(
                                self,
                            ).view()[j] by {
                                assert(!(np <= j < np + m));
                                assert(m_copy[j] == m_alloc[j]);
                                assert(j != ptr - 2 && j != ptr - 1);
                                assert(self.view()[j] == m_copy[j]);
                            }
                        }
                    }
                }
                Some(np)
            },
        }
    }
}

/// Zeroed bytes parse as a valid chain of zero-length used blocks.
proof fn lemma_zero_chain(mem: Seq<u8>, o: int)
    requires
        0 <= o <= mem.len(),
        mem.len() % 2 == 0,
        o % 2 == 0,
        forall|j: int| 0 <= j < mem.len() ==> mem[j] == 0u8,
    ensures
        chain_ok(mem, o),
    decreases mem.len() - o,
{
    if o == mem.len() {
    } else {
        assert(o + 2 <= mem.len());
        assert(word_at(mem, o) == 0);
        lemma_zero_chain(mem, o + 2);
    }
}

/// Flipping one block's free bit on (its size kept) leaves the chain's
/// structure intact and only marks that block free.
proof fn lemma_set_free(m1: Seq<u8>, m2: Seq<u8>, o: int, i: int)
    requires
        m1.len() == m2.len(),
        0 <= o <= m1.len(),
        chain_ok(m1, o),
        0 <= i < blocks_from(m1, o).len(),
        ({
            let t = blocks_from(m1, o)[i].off;
            forall|j: int| 0 <= j < m1.len() && j != t && j != t + 1 ==> m1[j] == m2[j]
        }),
        hdr_words(m2, blocks_from(m1, o)[i].off) == blocks_from(m1, o)[i].words,
        hdr_free(m2, blocks_from(m1, o)[i].off),
    ensures
        chain_ok(m2, o),
        blocks_from(m2, o) == blocks_from(m1, o).update(
            i,
            Block { free: true, ..blocks_from(m1, o)[i] },
        ),
    decreases i,
{
    lemma_blocks_shape(m1, o);
    let bs = blocks_from(m1, o);
    let t = bs[i].off;
    let nxt = next_off(m1, o);
    if i == 0 {
        assert(t == o);
        assert(next_off(m2, o) == nxt);
        lemma_agree_suffix(m1, m2, nxt);
        assert(blocks_from(m2, o) =~= bs.update(0, Block { free: true, ..bs[0] }));
    } else {
        assert(bs[i] == blocks_from(m1, nxt)[i - 1]);
        assert(blocks_from(m1, nxt)[i - 1].off >= nxt) by {
            lemma_blocks_shape(m1, nxt);
        }
        assert(word_at(m2, o) == word_at(m1, o));
        lemma_set_free(m1, m2, nxt, i - 1);
        assert(next_off(m2, o) == nxt);
        assert(blocks_from(m2, o) =~= bs.update(i, Block { free: true, ..bs[i] }));
    }
}

/// Marking one used block free adds exactly its data size to the free
/// total.
proof fn lemma_free_bytes_update(bs: Seq<Block>, i: int)
    requires
        0 <= i < bs.len(),
        !bs[i].free,
    ensures
        free_bytes_of(bs.update(i, Block { free: true, ..bs[i] })) == free_bytes_of(bs) + 2
            * bs[i].words,
    decreases i,
{
    let bs2 = bs.update(i, Block { free: true, ..bs[i] });
    if i == 0 {
        assert(bs2.drop_first() =~= bs.drop_first());
    } else {
        assert(bs2.drop_first() =~= bs.drop_first().update(i - 1, Block {
            free: true,
            ..bs[i]
        }));
        assert(bs.drop_first()[i - 1] == bs[i]);
        lemma_free_bytes_update(bs.drop_first(), i - 1);
    }
}

/// In a chain starting at an even offset, every block sits at an even
/// offset.
proof fn lemma_offs_even(mem: Seq<u8>, o: int)
    requires
        0 <= o <= mem.len(),
        o % 2 == 0,
        chain_ok(mem, o),
    ensures
        forall|i: int|
            0 <= i < blocks_from(mem, o).len() ==> (#[trigger] blocks_from(mem, o)[i]).off % 2
                == 0,
    decreases mem.len() - o,
{
    if o == mem.len() {
    } else {
        let nxt = next_off(mem, o);
        lemma_offs_even(mem, nxt);
        assert forall|i: int|
            0 <= i < blocks_from(mem, o).len() implies (#[trigger] blocks_from(mem, o)[i]).off % 2
            == 0 by {
            if i > 0 {
                assert(blocks_from(mem, o)[i] == blocks_from(mem, nxt)[i - 1]);
            }
        }
    }
}

/// What a successful scan hands out: the carved data offset respects the
/// requested alignment, a used block of sufficient size sits right before
/// it in the resulting list, and the carved bytes avoid every block that
/// was used before the scan.
pub proof fn lemma_scan_success(bs: Seq<Block>, size: int, align: int)
    requires
        align >= 1,
        spec_scan(bs, size, align).1 is Some,
        forall|i: int| 0 <= i < bs.len() ==> (#[trigger] bs[i]).words >= 0,
        forall|i: int| 0 <= i < bs.len() ==> (#[trigger] bs[i]).off >= 0,
        forall|i: int| 0 <= i < bs.len() ==> (#[trigger] bs[i]).off % 2 == 0,
        forall|i: int|
            0 <= i < bs.len() - 1 ==> (#[trigger] bs[i + 1]).off == bs[i].off + 2 + 2
                * bs[i].words,
    ensures
        ({
            let p = spec_scan(bs, size, align).1.unwrap();
            let nb = spec_scan(bs, size, align).0;
            &&& p % align == 0
            &&& p >= 2
            &&& exists|bi: int|
                0 <= bi < nb.len() && (#[trigger] nb[bi]).off == p - 2 && !nb[bi].free && size
                    <= 2 * nb[bi].words
            &&& forall|i: int|
                0 <= i < bs.len() && !(#[trigger] bs[i]).free ==> (p >= bs[i].off + 2 + 2
                    * bs[i].words) || (bs[i].off >= p + size)
        }),
    decreases bs.len(),
{
    let p = spec_scan(bs, size, align).1.unwrap();
    let nb = spec_scan(bs, size, align).0;
    if bs.len() == 0 {
    } else if !bs[0].free {
        let rest = bs.drop_first();
        lemma_scan_success(rest, size, align);
        let pr = spec_scan(rest, size, align).1.unwrap();
        let nbr = spec_scan(rest, size, align).0;
        assert(p == pr);
        let bi = choose|bi: int|
            0 <= bi < nbr.len() && (#[trigger] nbr[bi]).off == p - 2 && !nbr[bi].free && size <= 2
                * nbr[bi].words;
        assert(nb[bi + 1] == nbr[bi]);
        assert forall|i: int|
            0 <= i < bs.len() && !(#[trigger] bs[i]).free implies (p >= bs[i].off + 2 + 2
            * bs[i].words) || (bs[i].off >= p + size) by {
            if i == 0 {
                assert(rest.len() >= 1);
                assert(rest[0].off == bs[0].off + 2 + 2 * bs[0].words) by {
                    assert(bs[(0 + 1) as int].off == bs[0].off + 2 + 2 * bs[0].words);
                }
                assert(p >= rest[0].off) by {
                    lemma_scan_ptr_low(rest, size, align);
                }
            } else {
                assert(rest[i - 1] == bs[i]);
            }
        }
    } else if bs.len() >= 2 && bs[1].free {
        let merged = seq![
            Block { off: bs[0].off, words: bs[0].words + bs[1].words + 1, free: true },
        ] + bs.skip(2);
        assert forall|i: int| 0 <= i < merged.len() - 1 implies (#[trigger] merged[i + 1]).off
            == merged[i].off + 2 + 2 * merged[i].words by {
            if i == 0 {
                if merged.len() >= 2 {
                    assert(merged[1] == bs[2]);
                    assert(bs[(1 + 1) as int].off == bs[1].off + 2 + 2 * bs[1].words);
                    assert(bs[(0 + 1) as int].off == bs[0].off + 2 + 2 * bs[0].words);
                }
            } else {
                assert(merged[i] == bs[i + 1] && merged[i + 1] == bs[i + 2]);
                assert(bs[((i + 1) + 1) as int].off == bs[i + 1].off + 2 + 2 * bs[i + 1].words);
            }
        }
        assert(forall|i: int| 0 <= i < merged.len() ==> (#[trigger] merged[i]).words >= 0);
        assert(forall|i: int| 0 <= i < merged.len() ==> (#[trigger] merged[i]).off >= 0);
        assert(forall|i: int| 0 <= i < merged.len() ==> (#[trigger] merged[i]).off % 2 == 0);
        lemma_scan_success(merged, size, align);
        assert forall|i: int|
            0 <= i < bs.len() && !(#[trigger] bs[i]).free implies (p >= bs[i].off + 2 + 2
            * bs[i].words) || (bs[i].off >= p + size) by {
            assert(i >= 2);
            assert(merged[i - 1] == bs[i]);
        }
    } else if fits(bs[0].off, bs[0].words, size, align) {
        let off = bs[0].off;
        let w = bs[0].words;
        let e = off + 2 + 2 * w;
        let ca = carve_align(align);
        vstd::arithmetic::div_mod::lemma_fundamental_div_mod(e - size, ca);
        vstd::arithmetic::div_mod::lemma_mod_pos_bound(e - size, ca);
        let q = (e - size) / ca;
        assert(p == q * ca);
        assert(ca * q <= e - size);
        assert(q * ca == ca * q) by (nonlinear_arith);
        assert(p + size <= e);
        vstd::arithmetic::div_mod::lemma_mod_multiples_basic(q, ca);
        assert(p % ca == 0);
        if ca == align {
            assert(p % align == 0);
        } else {
            assert(ca == 2 * align);
            assert(q * ca == (2 * q) * align) by (nonlinear_arith)
                requires
                    ca == 2 * align,
            ;
            vstd::arithmetic::div_mod::lemma_mod_multiples_basic(2 * q, align);
            assert(p % align == 0);
        }
        assert(p % 2 == 0) by {
            let m = ca / 2;
            vstd::arithmetic::div_mod::lemma_fundamental_div_mod(ca, 2);
            assert(ca == 2 * m);
            assert(q * ca == (q * m) * 2) by (nonlinear_arith)
                requires
                    ca == 2 * m,
            ;
            vstd::arithmetic::div_mod::lemma_mod_multiples_basic(q * m, 2);
        }
        if p == off + 2 {
            assert(nb[0].off == p - 2 && !nb[0].free && size <= 2 * nb[0].words);
        } else {
            assert(nb[1].off == p - 2 && !nb[1].free);
            assert(2 * ((e - p) / 2) == e - p);
            assert(size <= 2 * nb[1].words);
        }
        assert forall|i: int|
            0 <= i < bs.len() && !(#[trigger] bs[i]).free implies (p >= bs[i].off + 2 + 2
            * bs[i].words) || (bs[i].off >= p + size) by {
            assert(i >= 1);
            lemma_offs_increase(bs, 1, i);
            assert(bs[(0 + 1) as int].off == bs[0].off + 2 + 2 * bs[0].words);
            assert(bs[i].off >= e);
        }
    } else {
        let rest = bs.drop_first();
        lemma_scan_success(rest, size, align);
        let pr = spec_scan(rest, size, align).1.unwrap();
        let nbr = spec_scan(rest, size, align).0;
        assert(p == pr);
        let bi = choose|bi: int|
            0 <= bi < nbr.len() && (#[trigger] nbr[bi]).off == p - 2 && !nbr[bi].free && size <= 2
                * nbr[bi].words;
        assert(nb[bi + 1] == nbr[bi]);
        assert forall|i: int|
            0 <= i < bs.len() && !(#[trigger] bs[i]).free implies (p >= bs[i].off + 2 + 2
            * bs[i].words) || (bs[i].off >= p + size) by {
            assert(i >= 1);
            assert(rest[i - 1] == bs[i]);
        }
    }
}

/// A successful scan never hands out an offset before the data of the
/// first block it considers.
proof fn lemma_scan_ptr_low(bs: Seq<Block>, size: int, align: int)
    requires
        spec_scan(bs, size, align).1 is Some,
        forall|t: int| 0 <= t < bs.len() ==> (#[trigger] bs[t]).words >= 0,
        forall|t: int|
            0 <= t < bs.len() - 1 ==> (#[trigger] bs[t + 1]).off == bs[t].off + 2 + 2
                * bs[t].words,
    ensures
        spec_scan(bs, size, align).1.unwrap() >= bs[0].off + 2,
        bs.len() >= 1,
    decreases bs.len(),
{
    if bs.len() == 0 {
    } else if !bs[0].free {
        let rest = bs.drop_first();
        lemma_scan_ptr_low(rest, size, align);
        assert(rest[0] == bs[(0 + 1) as int]);
        assert(bs[(0 + 1) as int].off == bs[0].off + 2 + 2 * bs[0].words);
    } else if bs.len() >= 2 && bs[1].free {
        let merged = seq![
            Block { off: bs[0].off, words: bs[0].words + bs[1].words + 1, free: true },
        ] + bs.skip(2);
        assert forall|t: int| 0 <= t < merged.len() - 1 implies (#[trigger] merged[t + 1]).off
            == merged[t].off + 2 + 2 * merged[t].words by {
            if t == 0 {
                if merged.len() >= 2 {
                    assert(merged[1] == bs[(1 + 1) as int]);
                    assert(bs[(1 + 1) as int].off == bs[1].off + 2 + 2 * bs[1].words);
                    assert(bs[(0 + 1) as int].off == bs[0].off + 2 + 2 * bs[0].words);
                }
            } else {
                assert(merged[t] == bs[t + 1] && merged[t + 1] == bs[t + 2]);
                assert(bs[((t + 1) + 1) as int].off == bs[t + 1].off + 2 + 2 * bs[t + 1].words);
            }
        }
        lemma_scan_ptr_low(merged, size, align);
    } else if fits(bs[0].off, bs[0].words, size, align) {
    } else {
        let rest = bs.drop_first();
        lemma_scan_ptr_low(rest, size, align);
        assert(rest[0] == bs[(0 + 1) as int]);
        assert(bs[(0 + 1) as int].off == bs[0].off + 2 + 2 * bs[0].words);
    }
}

/// Block offsets strictly increase along an adjacency-tiled list.
proof fn lemma_offs_increase(bs: Seq<Block>, i: int, j: int)
    requires
        0 <= i <= j < bs.len(),
        forall|t: int| 0 <= t < bs.len() ==> (#[trigger] bs[t]).words >= 0,
        forall|t: int|
            0 <= t < bs.len() - 1 ==> (#[trigger] bs[t + 1]).off == bs[t].off + 2 + 2
                * bs[t].words,
    ensures
        i < j ==> bs[i].off + 2 + 2 * bs[i].words <= bs[j].off,
        bs[i].off <= bs[j].off,
    decreases j - i,
{
    if i < j {
        lemma_offs_increase(bs, i + 1, j);
        assert(bs[i + 1].off == bs[i].off + 2 + 2 * bs[i].words);
    }
}

/// Changing one byte inside a block's data region leaves every header, and
/// so the whole block structure, untouched.
proof fn lemma_data_write(m1: Seq<u8>, m2: Seq<u8>, o: int, j: int, bi: int)
    requires
        m1.len() == m2.len(),
        0 <= o <= m1.len(),
        chain_ok(m1, o),
        forall|t: int| 0 <= t < m1.len() && t != j ==> m1[t] == m2[t],
        0 <= bi < blocks_from(m1, o).len(),
        blocks_from(m1, o)[bi].off + 2 <= j < blocks_from(m1, o)[bi].off + 2 + 2 * blocks_from(
            m1,
            o,
        )[bi].words,
    ensures
        chain_ok(m2, o),
        blocks_from(m2, o) == blocks_from(m1, o),
    decreases bi,
{
    lemma_blocks_shape(m1, o);
    let bs = blocks_from(m1, o);
    let nxt = next_off(m1, o);
    if bi == 0 {
        assert(o + 2 <= j < nxt);
        assert(word_at(m2, o) == word_at(m1, o));
        lemma_agree_suffix(m1, m2, nxt);
        assert(blocks_from(m2, o) =~= blocks_from(m1, o));
    } else {
        assert(bs[bi] == blocks_from(m1, nxt)[bi - 1]);
        assert(blocks_from(m1, nxt)[bi - 1].off >= nxt) by {
            lemma_blocks_shape(m1, nxt);
        }
        assert(word_at(m2, o) == word_at(m1, o));
        lemma_data_write(m1, m2, nxt, j, bi - 1);
        assert(blocks_from(m2, o) =~= blocks_from(m1, o));
    }
}

/// The scan never disturbs a used block: every block that was used before
/// is still in the list afterwards, unchanged.
pub proof fn lemma_scan_keeps_used(bs: Seq<Block>, size: int, align: int, i: int)
    requires
        0 <= i < bs.len(),
        !bs[i].free,
    ensures
        exists|j: int|
            0 <= j < spec_scan(bs, size, align).0.len() && #[trigger] spec_scan(
                bs,
                size,
                align,
            ).0[j] == bs[i],
    decreases bs.len(),
{
    let nb = spec_scan(bs, size, align).0;
    if bs.len() == 0 {
    } else if !bs[0].free {
        if i == 0 {
            assert(nb[0] == bs[0]);
        } else {
            let rest = bs.drop_first();
            lemma_scan_keeps_used(rest, size, align, i - 1);
            let j = choose|j: int|
                0 <= j < spec_scan(rest, size, align).0.len() && #[trigger] spec_scan(
                    rest,
                    size,
                    align,
                ).0[j] == rest[i - 1];
            assert(nb[j + 1] == bs[i]);
        }
    } else if bs.len() >= 2 && bs[1].free {
        let merged = seq![
            Block { off: bs[0].off, words: bs[0].words + bs[1].words + 1, free: true },
        ] + bs.skip(2);
        assert(i >= 2);
        assert(merged[i - 1] == bs[i]);
        lemma_scan_keeps_used(merged, size, align, i - 1);
    } else if fits(bs[0].off, bs[0].words, size, align) {
        assert(i >= 1);
        let p = fit_ptr(bs[0].off, bs[0].words, size, align);
        if p == bs[0].off + 2 {
            assert(nb[i] == bs[i]);
        } else {
            assert(nb[i + 1] == bs[i]);
        }
    } else {
        assert(i >= 1);
        let rest = bs.drop_first();
        lemma_scan_keeps_used(rest, size, align, i - 1);
        let j = choose|j: int|
            0 <= j < spec_scan(rest, size, align).0.len() && #[trigger] spec_scan(
                rest,
                size,
                align,
            ).0[j] == rest[i - 1];
        assert(nb[j + 1] == bs[i]);
    }
}

/// Any two distinct blocks of a sound heap occupy disjoint byte ranges,
/// and every block lies inside the heap: the set of live allocations never
/// overlaps and stays within the heap bounds.
pub proof fn lemma_blocks_disjoint(h: &MDSpecializeAlloc, i: int, j: int)
    requires
        h.wf(),
        0 <= i < j < h.blocks().len(),
    ensures
        h.blocks()[i].off + 2 + 2 * h.blocks()[i].words <= h.blocks()[j].off,
        0 <= h.blocks()[i].off,
        h.blocks()[j].off + 2 + 2 * h.blocks()[j].words <= h.spec_size(),
{
    lemma_blocks_shape(h.view(), 0);
    lemma_offs_increase(h.blocks(), i, j);
}

} // verus!
