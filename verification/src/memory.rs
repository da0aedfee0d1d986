//! Per-container memory accounting: arena-style pools with first-fit
//! allocation, coalescing of adjacent free blocks, usage statistics and
//! leak heuristics.

use vstd::prelude::*;
use crate::errors::ErrorKind;

verus! {

broadcast use vstd::std_specs::vec::group_vec_axioms, vstd::seq::group_seq_axioms;

/// One block of a pool: a half-open byte range and whether it is free.
#[derive(Clone, Copy)]
pub struct MemoryBlock {
    pub offset: u32,
    pub size: u32,
    pub is_free: bool,
    pub allocated_at: u64,
}

/// A pool: a fixed span of `total_size` bytes split into blocks.
pub struct MemoryPool {
    pub pool_id: String,
    pub total_size: u32,
    pub used_size: u32,
    pub blocks: Vec<MemoryBlock>,
}

/// The blocks tile `[0, total)` in order, without gaps or empty blocks.
pub open spec fn contiguous(bs: Seq<MemoryBlock>, total: u32) -> bool {
    &&& (bs.len() == 0 ==> total == 0)
    &&& (bs.len() > 0 ==> bs[0].offset == 0)
    &&& (bs.len() > 0 ==> bs[bs.len() - 1].offset + bs[bs.len() - 1].size == total)
    &&& forall|i: int|
        0 <= i < bs.len() - 1 ==> (#[trigger] bs[i + 1].offset) as int == bs[i].offset + bs[i].size
    &&& forall|i: int| 0 <= i < bs.len() ==> (#[trigger] bs[i]).size > 0
}

/// No two adjacent blocks are both free.
pub open spec fn coalesced(bs: Seq<MemoryBlock>) -> bool {
    forall|i: int| 0 <= i < bs.len() - 1 ==> !((#[trigger] bs[i]).is_free && bs[i + 1].is_free)
}

/// The bytes a block counts towards the used total.
pub open spec fn used_bytes_of(b: MemoryBlock) -> int {
    if b.is_free {
        0
    } else {
        b.size as int
    }
}

/// The used bytes of the blocks from index `i` on.
pub open spec fn used_from(bs: Seq<MemoryBlock>, i: int) -> int
    decreases bs.len() - i,
{
    if i < 0 || i >= bs.len() {
        0
    } else {
        used_bytes_of(bs[i]) + used_from(bs, i + 1)
    }
}

/// The sizes of the blocks from index `i` on.
pub open spec fn sizes_from(bs: Seq<MemoryBlock>, i: int) -> int
    decreases bs.len() - i,
{
    if i < 0 || i >= bs.len() {
        0
    } else {
        bs[i].size + sizes_from(bs, i + 1)
    }
}

/// Suffixes that agree element-for-element have equal sums.
pub proof fn lemma_sums_agree(bs1: Seq<MemoryBlock>, bs2: Seq<MemoryBlock>, i1: int, i2: int)
    requires
        0 <= i1 <= bs1.len(),
        0 <= i2 <= bs2.len(),
        bs1.len() - i1 == bs2.len() - i2,
        forall|k: int| 0 <= k < bs1.len() - i1 ==> #[trigger] bs1[i1 + k] == bs2[i2 + k],
    ensures
        used_from(bs1, i1) == used_from(bs2, i2),
        sizes_from(bs1, i1) == sizes_from(bs2, i2),
    decreases bs1.len() - i1,
{
    if i1 < bs1.len() {
        assert(bs1[i1 + 0] == bs2[i2 + 0]);
        assert forall|k: int| 0 <= k < bs1.len() - (i1 + 1) implies #[trigger] bs1[(i1 + 1) + k]
            == bs2[(i2 + 1) + k] by {
            assert(bs1[i1 + (k + 1)] == bs2[i2 + (k + 1)]);
        }
        lemma_sums_agree(bs1, bs2, i1 + 1, i2 + 1);
    }
}

/// A sum splits at any index into the part before and the suffix.
pub proof fn lemma_sums_split(bs: Seq<MemoryBlock>, i: int, j: int)
    requires
        0 <= i <= j <= bs.len(),
    ensures
        used_from(bs, i) == used_from(bs.subrange(i, j), 0) + used_from(bs, j),
        sizes_from(bs, i) == sizes_from(bs.subrange(i, j), 0) + sizes_from(bs, j),
    decreases j - i,
{
    if i < j {
        lemma_sums_split(bs, i + 1, j);
        let s1 = bs.subrange(i, j);
        let s2 = bs.subrange(i + 1, j);
        assert(s1.subrange(1, s1.len() as int) =~= s2);
        lemma_sums_agree(s1, s2, 1, 0);
    }
}

/// Under contiguity the block sizes sum exactly to the pool size.
pub proof fn lemma_partition_total(bs: Seq<MemoryBlock>, total: u32)
    requires
        contiguous(bs, total),
    ensures
        sizes_from(bs, 0) == total,
{
    lemma_offsets(bs, 0);
    if bs.len() > 0 {
        assert(sizes_from(bs, bs.len() as int) == 0);
    }
}

/// Each suffix sum equals the bytes from that block's offset to the end.
proof fn lemma_offsets(bs: Seq<MemoryBlock>, i: int)
    requires
        0 <= i <= bs.len(),
        forall|k: int|
            0 <= k < bs.len() - 1 ==> (#[trigger] bs[k + 1].offset) as int == bs[k].offset
                + bs[k].size,
    ensures
        bs.len() > 0 && i < bs.len() ==> sizes_from(bs, i) == bs[bs.len() - 1].offset + bs[bs.len()
            - 1].size - bs[i].offset,
    decreases bs.len() - i,
{
    if i < bs.len() {
        lemma_offsets(bs, i + 1);
        assert(sizes_from(bs, i) == bs[i].size + sizes_from(bs, i + 1));
        if i + 1 < bs.len() {
            assert(bs[i + 1].offset as int == bs[i].offset + bs[i].size);
        } else {
            assert(sizes_from(bs, i + 1) == 0);
        }
    }
}

/// The used bytes never exceed the pool's span.
pub proof fn lemma_used_le_total(bs: Seq<MemoryBlock>, i: int)
    requires
        0 <= i,
    ensures
        0 <= used_from(bs, i) <= sizes_from(bs, i),
    decreases bs.len() - i,
{
    if i < bs.len() {
        lemma_used_le_total(bs, i + 1);
    }
}

/// Index of the first free block at or after `i` that fits `size`, or
/// `bs.len()`: the first-fit rule.
pub open spec fn first_fit_from(bs: Seq<MemoryBlock>, i: int, size: u32) -> int
    decreases bs.len() - i,
{
    if i < 0 || i >= bs.len() {
        bs.len() as int
    } else if bs[i].is_free && bs[i].size >= size {
        i
    } else {
        first_fit_from(bs, i + 1, size)
    }
}

pub proof fn lemma_first_fit_props(bs: Seq<MemoryBlock>, i: int, size: u32)
    requires
        0 <= i <= bs.len(),
    ensures
        i <= first_fit_from(bs, i, size) <= bs.len(),
        first_fit_from(bs, i, size) < bs.len() ==> {
            let f = first_fit_from(bs, i, size);
            bs[f].is_free && bs[f].size >= size
        },
        forall|j: int|
            i <= j < first_fit_from(bs, i, size) ==> !((#[trigger] bs[j]).is_free && bs[j].size
                >= size),
    decreases bs.len() - i,
{
    if i < bs.len() && !(bs[i].is_free && bs[i].size >= size) {
        lemma_first_fit_props(bs, i + 1, size);
    }
}

/// The blocks after a first-fit allocation at `f`: the block is taken whole,
/// or split into a used head and a free remainder.
pub open spec fn alloc_blocks(bs: Seq<MemoryBlock>, f: int, size: u32, now: u64) -> Seq<
    MemoryBlock,
> {
    let b = bs[f];
    let used = MemoryBlock { offset: b.offset, size, is_free: false, allocated_at: now };
    if b.size == size {
        bs.update(f, used)
    } else {
        let rest = MemoryBlock {
            offset: (b.offset + size) as u32,
            size: (b.size - size) as u32,
            is_free: true,
            allocated_at: now,
        };
        bs.update(f, used).insert(f + 1, rest)
    }
}

/// Index of the first block at or after `i` holding `offset` and in use.
pub open spec fn block_find_from(bs: Seq<MemoryBlock>, i: int, offset: u32) -> int
    decreases bs.len() - i,
{
    if i < 0 || i >= bs.len() {
        bs.len() as int
    } else if bs[i].offset == offset && !bs[i].is_free {
        i
    } else {
        block_find_from(bs, i + 1, offset)
    }
}

pub proof fn lemma_block_find_props(bs: Seq<MemoryBlock>, i: int, offset: u32)
    requires
        0 <= i <= bs.len(),
    ensures
        i <= block_find_from(bs, i, offset) <= bs.len(),
        block_find_from(bs, i, offset) < bs.len() ==> {
            let f = block_find_from(bs, i, offset);
            bs[f].offset == offset && !bs[f].is_free
        },
    decreases bs.len() - i,
{
    if i < bs.len() && !(bs[i].offset == offset && !bs[i].is_free) {
        lemma_block_find_props(bs, i + 1, offset);
    }
}

/// The blocks after freeing the block at `i`, merged with whichever of its
/// neighbours are free.
pub open spec fn dealloc_blocks(bs: Seq<MemoryBlock>, i: int) -> Seq<MemoryBlock> {
    let leftfree = i > 0 && bs[i - 1].is_free;
    let rightfree = i + 1 < bs.len() && bs[i + 1].is_free;
    let lo = if leftfree {
        i - 1
    } else {
        i
    };
    let hi = if rightfree {
        i + 1
    } else {
        i
    };
    let size = (if leftfree {
        bs[i - 1].size as int
    } else {
        0
    }) + bs[i].size + (if rightfree {
        bs[i + 1].size as int
    } else {
        0
    });
    let merged = MemoryBlock {
        offset: bs[lo].offset,
        size: size as u32,
        is_free: true,
        allocated_at: bs[lo].allocated_at,
    };
    bs.subrange(0, lo) + seq![merged] + bs.subrange(hi + 1, bs.len() as int)
}

impl MemoryPool {
    /// The blocks tile the pool without gaps, no two adjacent blocks are
    /// both free, and the used counter equals the used blocks' bytes.
    pub open spec fn wf(&self) -> bool {
        &&& contiguous(self.blocks@, self.total_size)
        &&& coalesced(self.blocks@)
        &&& self.used_size as int == used_from(self.blocks@, 0)
    }

    /// A pool of `size` bytes: one free block spanning it, or none when the
    /// pool is empty.
    pub fn new(pool_id: String, size: u32, now: u64) -> (r: MemoryPool)
        ensures
            r.wf(),
            r.pool_id == pool_id,
            r.total_size == size,
            r.used_size == 0,
    {
        let mut blocks: Vec<MemoryBlock> = Vec::new();
        if size > 0 {
            blocks.push(MemoryBlock { offset: 0, size, is_free: true, allocated_at: now });
        }
        proof {
            if size > 0 {
                assert(blocks@.len() == 1);
                assert(used_from(blocks@, 1) == 0);
                assert(used_from(blocks@, 0) == 0);
            } else {
                assert(used_from(blocks@, 0) == 0);
            }
        }
        MemoryPool { pool_id, total_size: size, used_size: 0, blocks }
    }

    /// Allocate `size` bytes at the first free block that fits, splitting
    /// off the remainder; the offset of the placed block comes back.
    #[verifier::loop_isolation(false)]
    pub fn allocate(&mut self, size: u32, now: u64) -> (r: Result<u32, ErrorKind>)
        requires
            old(self).wf(),
            size > 0,
        ensures
            final(self).wf(),
            final(self).total_size == old(self).total_size,
            final(self).pool_id == old(self).pool_id,
            ({
                let bs = old(self).blocks@;
                let f = first_fit_from(bs, 0, size);
                if f == bs.len() {
                    r == Err::<u32, ErrorKind>(ErrorKind::QuotaExceeded) && *final(self) == *old(
                        self,
                    )
                } else {
                    &&& r == Ok::<u32, ErrorKind>(bs[f].offset)
                    &&& final(self).used_size == old(self).used_size + size
                    &&& final(self).blocks@ == alloc_blocks(bs, f, size, now)
                }
            }),
    {
        let ghost bs = self.blocks@;
        let mut i: usize = 0;
        while i < self.blocks.len()
            invariant
                i <= bs.len(),
                *self == *old(self),
                first_fit_from(bs, 0, size) == first_fit_from(bs, i as int, size),
            decreases bs.len() - i,
        {
            if self.blocks[i].is_free && self.blocks[i].size >= size {
                proof {
                    lemma_first_fit_props(bs, 0, size);
                    lemma_used_le_total(bs, 0);
                    lemma_used_le_total_minus(bs, 0, i as int);
                    lemma_partition_total(bs, self.total_size);
                    lemma_offsets_bound(bs, self.total_size, i as int);
                }
                let b = self.blocks[i];
                let used = MemoryBlock { offset: b.offset, size, is_free: false, allocated_at: now };
                self.blocks.set(i, used);
                if b.size > size {
                    let rest = MemoryBlock {
                        offset: b.offset + size,
                        size: b.size - size,
                        is_free: true,
                        allocated_at: now,
                    };
                    self.blocks.insert(i + 1, rest);
                }
                self.used_size = self.used_size + size;
                proof {
                    lemma_alloc_preserves(bs, i as int, size, now, old(self).total_size);
                }
                return Ok(b.offset);
            }
            i += 1;
        }
        Err(ErrorKind::QuotaExceeded)
    }
}

/// With a free block in sight, the used bytes stay below the span by at
/// least that block's size.
proof fn lemma_used_le_total_minus(bs: Seq<MemoryBlock>, i: int, f: int)
    requires
        0 <= i <= f < bs.len(),
        bs[f].is_free,
    ensures
        used_from(bs, i) <= sizes_from(bs, i) - bs[f].size,
    decreases bs.len() - i,
{
    if i < f {
        lemma_used_le_total_minus(bs, i + 1, f);
    } else {
        lemma_used_le_total(bs, i + 1);
    }
}

impl MemoryPool {
    /// Free the used block that starts at `offset` and merge it with its
    /// free neighbours, so no two adjacent free blocks remain.
    #[verifier::loop_isolation(false)]
    pub fn deallocate(&mut self, offset: u32) -> (r: Result<(), ErrorKind>)
        requires
            old(self).wf(),
        ensures
            final(self).wf(),
            final(self).total_size == old(self).total_size,
            final(self).pool_id == old(self).pool_id,
            coalesced(final(self).blocks@),
            ({
                let bs = old(self).blocks@;
                let f = block_find_from(bs, 0, offset);
                if f == bs.len() {
                    r == Err::<(), ErrorKind>(ErrorKind::NotFound) && *final(self) == *old(self)
                } else {
                    &&& r is Ok
                    &&& final(self).used_size == old(self).used_size - bs[f].size
                    &&& final(self).blocks@ == dealloc_blocks(bs, f)
                }
            }),
    {
        let ghost bs = self.blocks@;
        let n = self.blocks.len();
        let mut i: usize = 0;
        while i < n
            invariant
                i <= n,
                n == bs.len(),
                *self == *old(self),
                block_find_from(bs, 0, offset) == block_find_from(bs, i as int, offset),
            decreases n - i,
        {
            if self.blocks[i].offset == offset && !self.blocks[i].is_free {
                proof {
                    lemma_block_find_props(bs, 0, offset);
                    lemma_used_ge_block(bs, 0, i as int);
                    lemma_used_le_total(bs, 0);
                    lemma_partition_total(bs, self.total_size);
                    lemma_offsets_bound(bs, self.total_size, i as int);
                    if i + 1 < n {
                        lemma_offsets_bound(bs, self.total_size, i as int + 1);
                    }
                }
                let leftfree = i > 0 && self.blocks[i - 1].is_free;
                let rightfree = i + 1 < n && self.blocks[i + 1].is_free;
                let lo = if leftfree {
                    i - 1
                } else {
                    i
                };
                let hi = if rightfree {
                    i + 1
                } else {
                    i
                };
                let freed = self.blocks[i].size;
                let mut size = freed;
                if leftfree {
                    size = size + self.blocks[i - 1].size;
                }
                if rightfree {
                    size = size + self.blocks[i + 1].size;
                }
                let merged = MemoryBlock {
                    offset: self.blocks[lo].offset,
                    size,
                    is_free: true,
                    allocated_at: self.blocks[lo].allocated_at,
                };
                let mut nb: Vec<MemoryBlock> = Vec::new();
                let mut j: usize = 0;
                while j < lo
                    invariant
                        j <= lo,
                        lo < n == bs.len(),
                        *self == *old(self),
                        self.blocks@ == bs,
                        nb@.len() == j,
                        forall|t: int| 0 <= t < j ==> nb@[t] == bs[t],
                    decreases lo - j,
                {
                    nb.push(self.blocks[j]);
                    j += 1;
                }
                nb.push(merged);
                let mut j2: usize = hi + 1;
                while j2 < n
                    invariant
                        hi + 1 <= j2 <= n,
                        lo <= hi < n == bs.len(),
                        *self == *old(self),
                        self.blocks@ == bs,
                        nb@.len() == lo + 1 + (j2 - (hi + 1)),
                        forall|t: int| 0 <= t < lo ==> nb@[t] == bs[t],
                        nb@[lo as int] == merged,
                        forall|t: int|
                            lo + 1 <= t < nb@.len() ==> nb@[t] == bs[t + (hi - lo)],
                    decreases n - j2,
                {
                    nb.push(self.blocks[j2]);
                    j2 += 1;
                }
                proof {
                    assert(nb@ =~= dealloc_blocks(bs, i as int));
                    lemma_dealloc_preserves(bs, i as int, old(self).total_size);
                }
                self.blocks = nb;
                self.used_size = self.used_size - freed;
                proof {
                    if leftfree {
                        assert(used_bytes_of(bs[i as int - 1]) == 0);
                    }
                    if rightfree {
                        assert(used_bytes_of(bs[i as int + 1]) == 0);
                    }
                }
                return Ok(());
            }
            i += 1;
        }
        Err(ErrorKind::NotFound)
    }

    /// Index of the used block that starts at `offset`, or `blocks.len()`.
    pub fn find_block(&self, offset: u32) -> (r: usize)
        ensures
            r as int == block_find_from(self.blocks@, 0, offset),
    {
        let mut i: usize = 0;
        while i < self.blocks.len()
            invariant
                i <= self.blocks@.len(),
                block_find_from(self.blocks@, 0, offset) == block_find_from(
                    self.blocks@,
                    i as int,
                    offset,
                ),
            decreases self.blocks@.len() - i,
        {
            if self.blocks[i].offset == offset && !self.blocks[i].is_free {
                return i;
            }
            i += 1;
        }
        i
    }

    /// A compaction sweep. Adjacent free blocks are already merged on every
    /// deallocation, so the sweep finds nothing to remove; it exists for the
    /// manager's bookkeeping and reports how many blocks it merged.
    pub fn garbage_collect(&mut self) -> (r: u32)
        requires
            old(self).wf(),
        ensures
            final(self).wf(),
            *final(self) == *old(self),
            r == 0,
    {
        0
    }
}

/// The used bytes from `i` cover any single used block at or after `i`.
proof fn lemma_used_ge_block(bs: Seq<MemoryBlock>, i: int, f: int)
    requires
        0 <= i <= f < bs.len(),
        !bs[f].is_free,
    ensures
        used_from(bs, i) >= bs[f].size,
    decreases bs.len() - i,
{
    if i < f {
        lemma_used_ge_block(bs, i + 1, f);
        lemma_used_le_total(bs, i + 1);
    } else {
        lemma_used_le_total(bs, i + 1);
    }
}

/// Freeing a used block and merging its free neighbours preserves the pool
/// invariants and lowers the used bytes by exactly that block's size.
proof fn lemma_dealloc_preserves(bs: Seq<MemoryBlock>, f: int, total: u32)
    requires
        contiguous(bs, total),
        coalesced(bs),
        0 <= f < bs.len(),
        !bs[f].is_free,
    ensures
        contiguous(dealloc_blocks(bs, f), total),
        coalesced(dealloc_blocks(bs, f)),
        used_from(dealloc_blocks(bs, f), 0) == used_from(bs, 0) - bs[f].size,
{
    let bs2 = dealloc_blocks(bs, f);
    let leftfree = f > 0 && bs[f - 1].is_free;
    let rightfree = f + 1 < bs.len() && bs[f + 1].is_free;
    let lo: int = if leftfree {
        f - 1
    } else {
        f
    };
    let hi: int = if rightfree {
        f + 1
    } else {
        f
    };
    let merged = bs2[lo];
    assert(bs2.len() == bs.len() - (hi - lo));
    assert(forall|t: int| 0 <= t < lo ==> bs2[t] == bs[t]);
    assert(forall|t: int| lo < t < bs2.len() ==> bs2[t] == bs[t + (hi - lo)]);
    if f > 0 {
        assert(bs[(f - 1) + 1].offset as int == bs[f - 1].offset + bs[f - 1].size);
    }
    if f + 1 < bs.len() {
        assert(bs[f + 1].offset as int == bs[f].offset + bs[f].size);
    }
    if hi + 1 < bs.len() {
        assert(bs[hi + 1].offset as int == bs[hi].offset + bs[hi].size);
    }
    assert(merged.offset == bs[lo].offset);
    assert(merged.size as int == bs[lo].offset + (if leftfree {
        bs[f - 1].size as int
    } else {
        0int
    }) + bs[f].size + (if rightfree {
        bs[f + 1].size as int
    } else {
        0int
    }) - bs[lo].offset);
    assert forall|k: int| 0 <= k < bs2.len() - 1 implies (#[trigger] bs2[k + 1].offset) as int
        == bs2[k].offset + bs2[k].size by {
        if k < lo - 1 {
            assert(bs2[k] == bs[k]);
            assert(bs2[k + 1] == bs[k + 1]);
            assert(bs[k + 1].offset as int == bs[k].offset + bs[k].size);
        } else if k == lo - 1 {
            assert(bs2[k] == bs[k]);
            assert(bs[(lo - 1) + 1].offset as int == bs[lo - 1].offset + bs[lo - 1].size);
        } else if k == lo {
            assert(bs2[k + 1] == bs[hi + 1]);
            assert(bs[hi + 1].offset as int == bs[hi].offset + bs[hi].size);
        } else {
            assert(bs2[k] == bs[k + (hi - lo)]);
            assert(bs2[k + 1] == bs[k + 1 + (hi - lo)]);
            assert(bs[(k + (hi - lo) - 1) + 1].offset as int == bs[k + (hi - lo) - 1].offset
                + bs[k + (hi - lo) - 1].size);
            assert(bs[(k + (hi - lo)) + 1].offset as int == bs[k + (hi - lo)].offset + bs[k + (hi
                - lo)].size);
        }
    }
    assert forall|k: int| 0 <= k < bs2.len() implies (#[trigger] bs2[k]).size > 0 by {
        if k < lo {
            assert(bs2[k] == bs[k]);
            assert(bs[k].size > 0);
        } else if k > lo {
            assert(bs2[k] == bs[k + (hi - lo)]);
            assert(bs[k + (hi - lo)].size > 0);
        } else {
            assert(bs[f].size > 0);
        }
    }
    assert forall|k: int| 0 <= k < bs2.len() - 1 implies !((#[trigger] bs2[k]).is_free && bs2[k
        + 1].is_free) by {
        if k < lo - 1 {
            assert(bs2[k] == bs[k]);
            assert(bs2[k + 1] == bs[k + 1]);
            assert(!(bs[k].is_free && bs[k + 1].is_free));
        } else if k == lo - 1 {
            assert(bs2[k] == bs[lo - 1]);
            if leftfree {
                assert(!(bs[f - 2].is_free && bs[f - 1].is_free));
            } else {
                assert(!(bs[f - 1].is_free && bs[f].is_free) || bs[f - 1].is_free == false);
                assert(!bs[f - 1].is_free);
            }
        } else if k == lo {
            assert(bs2[k + 1] == bs[hi + 1]);
            if rightfree {
                assert(!(bs[f + 1].is_free && bs[f + 2].is_free));
            } else {
                assert(!bs[f + 1].is_free);
            }
        } else {
            assert(bs2[k] == bs[k + (hi - lo)]);
            assert(bs2[k + 1] == bs[k + 1 + (hi - lo)]);
            assert(!(bs[k + (hi - lo)].is_free && bs[k + (hi - lo) + 1].is_free));
        }
    }
    if bs2.len() > 0 {
        assert(bs2[0].offset == 0) by {
            if lo == 0 {
            } else {
                assert(bs2[0] == bs[0]);
            }
        }
        assert(bs2[bs2.len() - 1].offset + bs2[bs2.len() - 1].size == total) by {
            if lo == bs2.len() - 1 {
                assert(hi == bs.len() - 1);
            } else {
                assert(bs2[bs2.len() - 1] == bs[bs.len() - 1]);
            }
        }
    }
    assert(bs.subrange(0, lo) =~= bs2.subrange(0, lo));
    lemma_sums_agree(bs.subrange(0, lo), bs2.subrange(0, lo), 0, 0);
    lemma_sums_split(bs, 0, lo);
    lemma_sums_split(bs2, 0, lo);
    assert forall|k: int| 0 <= k < bs.len() - (hi + 1) implies #[trigger] bs[(hi + 1) + k]
        == bs2[(lo + 1) + k] by {}
    lemma_sums_agree(bs, bs2, hi + 1, lo + 1);
    assert(used_from(bs2, lo) == used_bytes_of(merged) + used_from(bs2, lo + 1));
    assert(used_bytes_of(merged) == 0);
    if leftfree {
        assert(used_from(bs, lo) == used_bytes_of(bs[f - 1]) + used_from(bs, f));
        assert(used_bytes_of(bs[f - 1]) == 0);
    }
    assert(used_from(bs, f) == used_bytes_of(bs[f]) + used_from(bs, f + 1));
    if rightfree {
        assert(used_from(bs, f + 1) == used_bytes_of(bs[f + 1]) + used_from(bs, f + 2));
        assert(used_bytes_of(bs[f + 1]) == 0);
    }
}

/// Allocation at a fitting free block preserves the pool invariants and
/// raises the used bytes by exactly the allocation size.
proof fn lemma_alloc_preserves(bs: Seq<MemoryBlock>, f: int, size: u32, now: u64, total: u32)
    requires
        contiguous(bs, total),
        coalesced(bs),
        0 <= f < bs.len(),
        bs[f].is_free,
        bs[f].size >= size,
        size > 0,
    ensures
        contiguous(alloc_blocks(bs, f, size, now), total),
        coalesced(alloc_blocks(bs, f, size, now)),
        used_from(alloc_blocks(bs, f, size, now), 0) == used_from(bs, 0) + size,
{
    let bs2 = alloc_blocks(bs, f, size, now);
    let used = MemoryBlock { offset: bs[f].offset, size, is_free: false, allocated_at: now };
    assert(bs.subrange(0, f) =~= bs2.subrange(0, f));
    lemma_sums_agree(bs.subrange(0, f), bs2.subrange(0, f), 0, 0);
    lemma_sums_split(bs, 0, f);
    lemma_sums_split(bs2, 0, f);
    if bs[f].size == size {
        assert(bs2 == bs.update(f, used));
        assert forall|k: int| 0 <= k < bs2.len() - 1 implies (#[trigger] bs2[k + 1].offset) as int
            == bs2[k].offset + bs2[k].size by {
            assert(bs2[k].offset == bs[k].offset && bs2[k].size == bs[k].size);
            assert(bs2[k + 1].offset == bs[k + 1].offset && bs2[k + 1].size == bs[k + 1].size);
            assert(bs[k + 1].offset as int == bs[k].offset + bs[k].size);
        }
        assert forall|k: int| 0 <= k < bs2.len() implies (#[trigger] bs2[k]).size > 0 by {
            assert(bs[k].size > 0);
        }
        assert forall|k: int| 0 <= k < bs2.len() - 1 implies !((#[trigger] bs2[k]).is_free && bs2[k
            + 1].is_free) by {
            if k != f && k + 1 != f {
                assert(bs2[k] == bs[k]);
                assert(bs2[k + 1] == bs[k + 1]);
                assert(!(bs[k].is_free && bs[k + 1].is_free));
            }
        }
        assert forall|k: int| 0 <= k < bs.len() - (f + 1) implies #[trigger] bs[(f + 1) + k]
            == bs2[(f + 1) + k] by {}
        lemma_sums_agree(bs, bs2, f + 1, f + 1);
        assert(used_from(bs, f) == used_bytes_of(bs[f]) + used_from(bs, f + 1));
        assert(used_from(bs2, f) == used_bytes_of(bs2[f]) + used_from(bs2, f + 1));
        assert(used_bytes_of(bs[f]) == 0);
        assert(used_bytes_of(bs2[f]) == size);
    } else {
        let rest = MemoryBlock {
            offset: (bs[f].offset + size) as u32,
            size: (bs[f].size - size) as u32,
            is_free: true,
            allocated_at: now,
        };
        assert(bs2 == bs.update(f, used).insert(f + 1, rest));
        assert(bs2.len() == bs.len() + 1);
        assert(bs[f].offset + bs[f].size <= total) by {
            lemma_offsets_bound(bs, total, f);
        }
        assert forall|k: int| 0 <= k < bs2.len() - 1 implies (#[trigger] bs2[k + 1].offset) as int
            == bs2[k].offset + bs2[k].size by {
            if k < f - 1 {
                assert(bs2[k] == bs[k]);
                assert(bs2[k + 1] == bs[k + 1]);
                assert(bs[k + 1].offset as int == bs[k].offset + bs[k].size);
            } else if k == f - 1 {
                assert(bs2[k] == bs[k]);
                assert(bs2[k + 1] == used);
                assert(bs[k + 1].offset as int == bs[k].offset + bs[k].size);
            } else if k == f {
                assert(bs2[k] == used);
                assert(bs2[k + 1] == rest);
            } else if k == f + 1 {
                assert(bs2[k] == rest);
                assert(bs2[k + 1] == bs[k]);
                assert(bs[f + 1].offset as int == bs[f].offset + bs[f].size);
            } else {
                assert(bs2[k] == bs[k - 1]);
                assert(bs2[k + 1] == bs[k]);
                assert(bs[(k - 1) + 1].offset as int == bs[k - 1].offset + bs[k - 1].size);
            }
        }
        assert forall|k: int| 0 <= k < bs2.len() implies (#[trigger] bs2[k]).size > 0 by {
            if k < f {
                assert(bs2[k] == bs[k]);
                assert(bs[k].size > 0);
            } else if k > f + 1 {
                assert(bs2[k] == bs[k - 1]);
                assert(bs[k - 1].size > 0);
            }
        }
        assert forall|k: int| 0 <= k < bs2.len() - 1 implies !((#[trigger] bs2[k]).is_free && bs2[k
            + 1].is_free) by {
            if k < f - 1 {
                assert(bs2[k] == bs[k]);
                assert(bs2[k + 1] == bs[k + 1]);
                assert(!(bs[k].is_free && bs[k + 1].is_free));
            } else if k == f - 1 {
                assert(bs2[k + 1] == used);
            } else if k == f {
                assert(bs2[k] == used);
            } else if k == f + 1 {
                if f + 1 < bs.len() {
                    assert(bs2[k + 1] == bs[f + 1]);
                    assert(!(bs[f].is_free && bs[f + 1].is_free));
                }
            } else {
                assert(bs2[k] == bs[k - 1]);
                assert(bs2[k + 1] == bs[k]);
                assert(!(bs[k - 1].is_free && bs[k].is_free));
            }
        }
        assert(bs2[0].offset == 0) by {
            if f == 0 {
                assert(bs2[0] == used);
            } else {
                assert(bs2[0] == bs[0]);
            }
        }
        assert(bs2[bs2.len() - 1].offset + bs2[bs2.len() - 1].size == total) by {
            if f == bs.len() - 1 {
                assert(bs2[bs2.len() - 1] == rest);
            } else {
                assert(bs2[bs2.len() - 1] == bs[bs.len() - 1]);
            }
        }
        assert forall|k: int| 0 <= k < bs.len() - (f + 1) implies #[trigger] bs[(f + 1) + k]
            == bs2[(f + 2) + k] by {}
        lemma_sums_agree(bs, bs2, f + 1, f + 2);
        assert(used_from(bs, f) == used_bytes_of(bs[f]) + used_from(bs, f + 1));
        assert(used_from(bs2, f) == used_bytes_of(bs2[f]) + used_from(bs2, f + 1));
        assert(used_from(bs2, f + 1) == used_bytes_of(rest) + used_from(bs2, f + 2));
        assert(used_bytes_of(bs[f]) == 0);
        assert(used_bytes_of(bs2[f]) == size);
        assert(used_bytes_of(rest) == 0);
    }
}

/// Every block ends within the pool span.
proof fn lemma_offsets_bound(bs: Seq<MemoryBlock>, total: u32, f: int)
    requires
        contiguous(bs, total),
        0 <= f < bs.len(),
    ensures
        bs[f].offset + bs[f].size <= total,
    decreases bs.len() - f,
{
    if f == bs.len() - 1 {
    } else {
        assert(bs[f + 1].offset as int == bs[f].offset + bs[f].size);
        lemma_offsets_bound(bs, total, f + 1);
    }
}

/// The counters of a fresh container.
pub open spec fn stats_new_spec(allocated: u32, now: u64) -> MemoryStats {
    MemoryStats {
        used: 0,
        allocated,
        peak: 0,
        allocations: 0,
        deallocations: 0,
        gc_runs: 0,
        last_gc: now,
    }
}

/// Usage counters for one container's memory.
#[derive(Clone, Copy)]
pub struct MemoryStats {
    pub used: u32,
    pub allocated: u32,
    pub peak: u32,
    pub allocations: u32,
    pub deallocations: u32,
    pub gc_runs: u32,
    pub last_gc: u64,
}

impl MemoryStats {
    /// Fresh counters for a pool of `allocated` bytes.
    pub fn new(allocated: u32, now: u64) -> (r: MemoryStats)
        ensures
            r.used == 0,
            r.allocated == allocated,
            r.peak == 0,
            r.allocations == 0,
            r.deallocations == 0,
            r.gc_runs == 0,
            r.last_gc == now,
    {
        MemoryStats {
            used: 0,
            allocated,
            peak: 0,
            allocations: 0,
            deallocations: 0,
            gc_runs: 0,
            last_gc: now,
        }
    }

    /// Set the used bytes, keeping the peak.
    pub fn update_usage(&mut self, new_used: u32)
        ensures
            final(self).used == new_used,
            final(self).peak == if new_used > old(self).peak {
                new_used
            } else {
                old(self).peak
            },
            final(self).allocated == old(self).allocated,
            final(self).allocations == old(self).allocations,
            final(self).deallocations == old(self).deallocations,
            final(self).gc_runs == old(self).gc_runs,
            final(self).last_gc == old(self).last_gc,
    {
        self.used = new_used;
        if new_used > self.peak {
            self.peak = new_used;
        }
    }

    /// Count one allocation of `size` bytes; the counters saturate.
    pub fn record_allocation(&mut self, size: u32)
        ensures
            final(self).allocations == if old(self).allocations == u32::MAX {
                u32::MAX
            } else {
                (old(self).allocations + 1) as u32
            },
            final(self).used as int == if old(self).used + size <= u32::MAX {
                old(self).used + size
            } else {
                u32::MAX as int
            },
            final(self).peak == if final(self).used > old(self).peak {
                final(self).used
            } else {
                old(self).peak
            },
            final(self).allocated == old(self).allocated,
            final(self).deallocations == old(self).deallocations,
            final(self).gc_runs == old(self).gc_runs,
            final(self).last_gc == old(self).last_gc,
    {
        if self.allocations < u32::MAX {
            self.allocations = self.allocations + 1;
        }
        if self.used <= u32::MAX - size {
            self.used = self.used + size;
        } else {
            self.used = u32::MAX;
        }
        if self.used > self.peak {
            self.peak = self.used;
        }
    }

    /// Count one deallocation of `size` bytes; the used count floors at 0.
    pub fn record_deallocation(&mut self, size: u32)
        ensures
            final(self).deallocations == if old(self).deallocations == u32::MAX {
                u32::MAX
            } else {
                (old(self).deallocations + 1) as u32
            },
            final(self).used as int == if old(self).used >= size {
                old(self).used - size
            } else {
                0
            },
            final(self).allocated == old(self).allocated,
            final(self).allocations == old(self).allocations,
            final(self).peak == old(self).peak,
            final(self).gc_runs == old(self).gc_runs,
            final(self).last_gc == old(self).last_gc,
    {
        if self.deallocations < u32::MAX {
            self.deallocations = self.deallocations + 1;
        }
        if self.used >= size {
            self.used = self.used - size;
        } else {
            self.used = 0;
        }
    }

    /// Count one sweep at time `now`.
    pub fn record_gc(&mut self, now: u64)
        ensures
            final(self).gc_runs == if old(self).gc_runs == u32::MAX {
                u32::MAX
            } else {
                (old(self).gc_runs + 1) as u32
            },
            final(self).last_gc == now,
            final(self).used == old(self).used,
            final(self).allocated == old(self).allocated,
            final(self).peak == old(self).peak,
            final(self).allocations == old(self).allocations,
            final(self).deallocations == old(self).deallocations,
    {
        if self.gc_runs < u32::MAX {
            self.gc_runs = self.gc_runs + 1;
        }
        self.last_gc = now;
    }

    /// Used bytes as a percentage of the pool, rounded down; 0 for an empty
    /// pool.
    pub fn utilization_percent(&self) -> (r: u64)
        ensures
            r as int == if self.allocated > 0 {
                self.used as int * 100 / self.allocated as int
            } else {
                0
            },
    {
        if self.allocated > 0 {
            (self.used as u64 * 100) / (self.allocated as u64)
        } else {
            0
        }
    }

    /// How far usage has fallen from its peak, in percent; 0 without a peak
    /// or when usage exceeds the recorded peak.
    pub fn fragmentation_percent(&self) -> (r: u64)
        ensures
            r as int == if self.peak > 0 && self.used <= self.peak {
                100 - self.used as int * 100 / self.peak as int
            } else {
                0
            },
    {
        if self.peak > 0 && self.used <= self.peak {
            let u = self.used as u64;
            let p = self.peak as u64;
            proof {
                assert((u as int * 100) / (p as int) <= 100) by (nonlinear_arith)
                    requires
                        0 < p,
                        u <= p,
                ;
            }
            let frac = (u * 100) / p;
            100 - frac
        } else {
            0
        }
    }
}


/// Why a container looks leaky.
#[derive(Clone, Copy, Debug, PartialEq, Eq, Structural)]
pub enum LeakType {
    AllocationImbalance,
    HighUtilization,
    NoRecentGC,
    FragmentationHigh,
}

/// How bad a leak finding is.
#[derive(Clone, Copy, Debug, PartialEq, Eq, Structural)]
pub enum LeakSeverity {
    Low,
    Medium,
    High,
    Critical,
}

/// One leak finding for one container.
pub struct MemoryLeakReport {
    pub container_id: String,
    pub leak_type: LeakType,
    pub severity: LeakSeverity,
    pub description: String,
    pub suggested_action: String,
}

/// Allocations outnumber deallocations more than two to one. The ratio is
/// taken as allocations over deallocations, both counted since creation.
pub open spec fn rule_imbalance(s: MemoryStats) -> bool {
    s.allocations > 0 && s.deallocations > 0 && s.allocations > 2 * s.deallocations
}

/// More than half the pool in use and utilisation above ninety percent.
pub open spec fn rule_high_utilization(s: MemoryStats) -> bool {
    s.allocated > 0 && s.used > s.allocated / 2 && s.used as int * 10 > s.allocated as int * 9
}

/// Memory in use but no sweep for over an hour.
pub open spec fn rule_no_recent_gc(s: MemoryStats, now: u64) -> bool {
    now > s.last_gc && now - s.last_gc > 3600000 && s.used > 0
}

/// The free blocks of `bs` from index `i` on.
pub open spec fn free_count_from(bs: Seq<MemoryBlock>, i: int) -> int
    decreases bs.len() - i,
{
    if i < 0 || i >= bs.len() {
        0
    } else {
        (if bs[i].is_free {
            1int
        } else {
            0int
        }) + free_count_from(bs, i + 1)
    }
}

/// The free bytes of `bs` from index `i` on.
pub open spec fn free_total_from(bs: Seq<MemoryBlock>, i: int) -> int
    decreases bs.len() - i,
{
    if i < 0 || i >= bs.len() {
        0
    } else {
        (if bs[i].is_free {
            bs[i].size as int
        } else {
            0int
        }) + free_total_from(bs, i + 1)
    }
}

/// The largest free block of `bs` from index `i` on.
pub open spec fn largest_free_from(bs: Seq<MemoryBlock>, i: int) -> int
    decreases bs.len() - i,
{
    if i < 0 || i >= bs.len() {
        0
    } else {
        let rest = largest_free_from(bs, i + 1);
        let here: int = if bs[i].is_free {
            bs[i].size as int
        } else {
            0int
        };
        if here > rest {
            here
        } else {
            rest
        }
    }
}

/// Free space split into many blocks, the largest under half of the total.
pub open spec fn rule_fragmentation(bs: Seq<MemoryBlock>) -> bool {
    free_count_from(bs, 0) > 4 && 2 * largest_free_from(bs, 0) < free_total_from(bs, 0)
}

/// One container's pool together with its usage counters.
pub struct PoolEntry {
    pub id: String,
    pub pool: MemoryPool,
    pub stats: MemoryStats,
}

/// Index of the first entry at or after `i` with id `id`.
pub open spec fn entry_find_from(es: Seq<PoolEntry>, i: int, id: Seq<char>) -> int
    decreases es.len() - i,
{
    if i < 0 || i >= es.len() {
        es.len() as int
    } else if es[i].id@ == id {
        i
    } else {
        entry_find_from(es, i + 1, id)
    }
}

pub proof fn lemma_entry_find_props(es: Seq<PoolEntry>, i: int, id: Seq<char>)
    requires
        0 <= i <= es.len(),
    ensures
        i <= entry_find_from(es, i, id) <= es.len(),
        entry_find_from(es, i, id) < es.len() ==> es[entry_find_from(es, i, id)].id@ == id,
        forall|j: int| i <= j < entry_find_from(es, i, id) ==> es[j].id@ != id,
    decreases es.len() - i,
{
    if i < es.len() && es[i].id@ != id {
        lemma_entry_find_props(es, i + 1, id);
    }
}

/// The pool bytes of the first `i` entries.
pub open spec fn totals_to(es: Seq<PoolEntry>, i: int) -> int
    decreases i,
{
    if i <= 0 {
        0
    } else {
        totals_to(es, i - 1) + es[i - 1].pool.total_size
    }
}

/// `stats` with one sweep recorded at `now`.
pub open spec fn gc_stamped(s: MemoryStats, now: u64) -> MemoryStats {
    MemoryStats {
        gc_runs: if s.gc_runs == u32::MAX {
            u32::MAX
        } else {
            (s.gc_runs + 1) as u32
        },
        last_gc: now,
        ..s
    }
}

/// Nothing about the manager observably changed.
pub open spec fn mm_unchanged(pre: MemoryManager, post: MemoryManager) -> bool {
    &&& post.entries@ == pre.entries@
    &&& post.global_limit == pre.global_limit
    &&& post.total_allocated == pre.total_allocated
    &&& post.gc_threshold_percent == pre.gc_threshold_percent
    &&& post.auto_gc_enabled == pre.auto_gc_enabled
}

/// The per-container pools under one global ceiling.
pub struct MemoryManager {
    pub entries: Vec<PoolEntry>,
    pub global_limit: u32,
    pub total_allocated: u32,
    pub gc_threshold_percent: u32,
    pub auto_gc_enabled: bool,
}

/// Index of the entry for `id`, or `es.len()`.
pub fn find_entry(es: &Vec<PoolEntry>, id: &str) -> (r: usize)
    ensures
        r as int == entry_find_from(es@, 0, id@),
{
    let mut i: usize = 0;
    while i < es.len()
        invariant
            i <= es@.len(),
            entry_find_from(es@, 0, id@) == entry_find_from(es@, i as int, id@),
        decreases es@.len() - i,
    {
        if crate::value::str_eq(es[i].id.as_str(), id) {
            return i;
        }
        i += 1;
    }
    i
}

impl MemoryManager {
    /// Container ids are unique, every pool is well-formed, and the global
    /// counter equals the pools' spans.
    pub open spec fn wf(&self) -> bool {
        &&& forall|i: int, j: int|
            0 <= i < j < self.entries@.len() ==> self.entries@[i].id@ != self.entries@[j].id@
        &&& forall|i: int| 0 <= i < self.entries@.len() ==> (#[trigger] self.entries@[i]).pool.wf()
        &&& self.total_allocated as int == totals_to(self.entries@, self.entries@.len() as int)
    }

    /// A fresh manager with the default half-gigabyte global ceiling and the
    /// default sweep trigger of eighty percent.
    pub fn new() -> (r: MemoryManager)
        ensures
            r.wf(),
            r.entries@.len() == 0,
            r.global_limit == 0x20000000u32,
            r.total_allocated == 0,
            r.gc_threshold_percent == 80,
            r.auto_gc_enabled,
    {
        MemoryManager {
            entries: Vec::new(),
            global_limit: 0x20000000u32,
            total_allocated: 0,
            gc_threshold_percent: 80,
            auto_gc_enabled: true,
        }
    }

    /// Create a pool of `size` bytes for a new container. Fails on a known
    /// id or when the global ceiling would be exceeded.
    pub fn allocate_container(&mut self, container_id: &str, size: u32, now: u64) -> (r: Result<
        (),
        ErrorKind,
    >)
        requires
            old(self).wf(),
        ensures
            final(self).wf(),
            final(self).global_limit == old(self).global_limit,
            final(self).gc_threshold_percent == old(self).gc_threshold_percent,
            final(self).auto_gc_enabled == old(self).auto_gc_enabled,
            ({
                let es = old(self).entries@;
                let k = entry_find_from(es, 0, container_id@);
                if k < es.len() {
                    r == Err::<(), ErrorKind>(ErrorKind::Duplicate) && *final(self) == *old(self)
                } else if old(self).total_allocated + size > old(self).global_limit {
                    r == Err::<(), ErrorKind>(ErrorKind::QuotaExceeded) && *final(self) == *old(
                        self,
                    )
                } else {
                    &&& r is Ok
                    &&& final(self).total_allocated == old(self).total_allocated + size
                    &&& final(self).entries@.len() == es.len() + 1
                    &&& forall|j: int| 0 <= j < es.len() ==> final(self).entries@[j] == es[j]
                    &&& ({
                        let e = final(self).entries@.last();
                        &&& e.id@ == container_id@
                        &&& e.pool.total_size == size
                        &&& e.pool.used_size == 0
                        &&& e.stats == stats_new_spec(size, now)
                    })
                }
            }),
    {
        let k = find_entry(&self.entries, container_id);
        proof {
            lemma_entry_find_props(self.entries@, 0, container_id@);
        }
        if k < self.entries.len() {
            return Err(ErrorKind::Duplicate);
        }
        if (self.total_allocated as u64) + (size as u64) > (self.global_limit as u64) {
            return Err(ErrorKind::QuotaExceeded);
        }
        let pool = MemoryPool::new(container_id.to_owned(), size, now);
        let stats = MemoryStats::new(size, now);
        let ghost oldlen = self.entries@.len();
        self.entries.push(PoolEntry { id: container_id.to_owned(), pool, stats });
        self.total_allocated = self.total_allocated + size;
        proof {
            assert(totals_to(self.entries@, oldlen as int) == totals_to(
                old(self).entries@,
                oldlen as int,
            )) by {
                lemma_totals_agree(old(self).entries@, self.entries@, oldlen as int);
            }
        }
        Ok(())
    }

    /// Drop a container's pool and return its bytes to the global budget;
    /// unknown ids are ignored.
    pub fn deallocate_container(&mut self, container_id: &str)
        requires
            old(self).wf(),
        ensures
            final(self).wf(),
            final(self).global_limit == old(self).global_limit,
            final(self).gc_threshold_percent == old(self).gc_threshold_percent,
            final(self).auto_gc_enabled == old(self).auto_gc_enabled,
            ({
                let es = old(self).entries@;
                let k = entry_find_from(es, 0, container_id@);
                if k == es.len() {
                    *final(self) == *old(self)
                } else {
                    &&& final(self).entries@ == es.remove(k)
                    &&& final(self).total_allocated == old(self).total_allocated - es[k].pool.total_size
                }
            }),
    {
        let k = find_entry(&self.entries, container_id);
        proof {
            lemma_entry_find_props(self.entries@, 0, container_id@);
        }
        if k == self.entries.len() {
            return ;
        }
        let sz = self.entries[k].pool.total_size;
        proof {
            lemma_totals_remove(self.entries@, k as int);
        }
        self.entries.remove(k);
        self.total_allocated = self.total_allocated - sz;
    }
}

/// Prefix totals agree on a common prefix.
pub proof fn lemma_totals_agree(es1: Seq<PoolEntry>, es2: Seq<PoolEntry>, i: int)
    requires
        0 <= i <= es1.len(),
        i <= es2.len(),
        forall|j: int| 0 <= j < i ==> es1[j] == es2[j],
    ensures
        totals_to(es1, i) == totals_to(es2, i),
    decreases i,
{
    if i > 0 {
        lemma_totals_agree(es1, es2, i - 1);
    }
}

/// Removing one entry lowers the total by exactly its pool span, and a
/// pool's span is never more than the prefix total.
pub proof fn lemma_totals_remove(es: Seq<PoolEntry>, k: int)
    requires
        0 <= k < es.len(),
    ensures
        totals_to(es.remove(k), es.len() - 1) == totals_to(es, es.len() as int)
            - es[k].pool.total_size,
        es[k].pool.total_size <= totals_to(es, es.len() as int),
    decreases es.len(),
{
    lemma_totals_remove_from(es, k, es.len() as int);
    lemma_totals_nonneg_segment(es, 0, k);
    lemma_totals_mono(es, k + 1, es.len() as int);
}

/// The removed-entry identity over any prefix length past `k`.
proof fn lemma_totals_remove_from(es: Seq<PoolEntry>, k: int, i: int)
    requires
        0 <= k < i <= es.len(),
    ensures
        totals_to(es.remove(k), i - 1) == totals_to(es, i) - es[k].pool.total_size,
    decreases i,
{
    if i - 1 == k {
        lemma_totals_agree(es.remove(k), es, k);
    } else {
        lemma_totals_remove_from(es, k, i - 1);
        assert(es.remove(k)[i - 2] == es[i - 1]);
    }
}

/// Totals only grow with the prefix length.
proof fn lemma_totals_mono(es: Seq<PoolEntry>, i: int, j: int)
    requires
        0 <= i <= j <= es.len(),
    ensures
        totals_to(es, i) <= totals_to(es, j),
    decreases j - i,
{
    if i < j {
        lemma_totals_mono(es, i, j - 1);
    }
}

/// Totals of a prefix are non-negative.
proof fn lemma_totals_nonneg_segment(es: Seq<PoolEntry>, i: int, j: int)
    requires
        0 <= i <= j <= es.len(),
    ensures
        totals_to(es, j) >= totals_to(es, i),
        totals_to(es, i) >= 0,
    decreases j + i,
{
    if i > 0 {
        lemma_totals_nonneg_segment(es, i - 1, i - 1);
    }
    if i < j {
        lemma_totals_mono(es, i, j);
    }
}


/// A point-in-time summary of one pool.
pub struct MemoryPoolStats {
    pub pool_id: String,
    pub total_size: u32,
    pub used_size: u32,
    pub free_size: u32,
    pub total_blocks: usize,
    pub free_blocks: u64,
    pub fragmentation_percent: u64,
}

impl MemoryManager {
    /// Allocate a block inside a container's pool by first fit. A zero-size
    /// request answers with the first free offset and changes nothing.
    #[verifier::loop_isolation(false)]
    pub fn allocate_block(&mut self, container_id: &str, size: u32, now: u64) -> (r: Result<
        u32,
        ErrorKind,
    >)
        requires
            old(self).wf(),
        ensures
            final(self).wf(),
            final(self).global_limit == old(self).global_limit,
            final(self).total_allocated == old(self).total_allocated,
            final(self).gc_threshold_percent == old(self).gc_threshold_percent,
            final(self).auto_gc_enabled == old(self).auto_gc_enabled,
            ({
                let es = old(self).entries@;
                let k = entry_find_from(es, 0, container_id@);
                if k == es.len() {
                    r == Err::<u32, ErrorKind>(ErrorKind::NotFound) && mm_unchanged(
                        *old(self),
                        *final(self),
                    )
                } else {
                    let bs = es[k].pool.blocks@;
                    let f = first_fit_from(bs, 0, size);
                    if f == bs.len() {
                        r == Err::<u32, ErrorKind>(ErrorKind::QuotaExceeded) && mm_unchanged(
                            *old(self),
                            *final(self),
                        )
                    } else if size == 0 {
                        r == Ok::<u32, ErrorKind>(bs[f].offset) && mm_unchanged(
                            *old(self),
                            *final(self),
                        )
                    } else {
                        &&& r == Ok::<u32, ErrorKind>(bs[f].offset)
                        &&& final(self).entries@.len() == es.len()
                        &&& forall|j: int|
                            0 <= j < es.len() && j != k ==> final(self).entries@[j] == es[j]
                        &&& ({
                            let e0 = es[k];
                            let e1 = final(self).entries@[k];
                            &&& e1.id == e0.id
                            &&& e1.pool.pool_id == e0.pool.pool_id
                            &&& e1.pool.total_size == e0.pool.total_size
                            &&& e1.pool.used_size == e0.pool.used_size + size
                            &&& e1.pool.blocks@ == alloc_blocks(bs, f, size, now)
                            &&& e1.stats.allocations as int == if e0.stats.allocations == u32::MAX {
                                u32::MAX as int
                            } else {
                                e0.stats.allocations + 1
                            }
                            &&& e1.stats.used as int == if e0.stats.used + size <= u32::MAX {
                                e0.stats.used + size
                            } else {
                                u32::MAX as int
                            }
                            &&& e1.stats.peak == if e1.stats.used > e0.stats.peak {
                                e1.stats.used
                            } else {
                                e0.stats.peak
                            }
                            &&& e1.stats.deallocations == e0.stats.deallocations
                            &&& e1.stats.allocated == e0.stats.allocated
                            &&& e1.stats.gc_runs == e0.stats.gc_runs
                            &&& e1.stats.last_gc == e0.stats.last_gc
                        })
                    }
                }
            }),
    {
        let k = find_entry(&self.entries, container_id);
        proof {
            lemma_entry_find_props(self.entries@, 0, container_id@);
        }
        if k == self.entries.len() {
            return Err(ErrorKind::NotFound);
        }
        if size == 0 {
            let e = &self.entries[k];
            let mut i: usize = 0;
            let ghost bs = e.pool.blocks@;
            while i < e.pool.blocks.len()
                invariant
                    i <= bs.len(),
                    bs == e.pool.blocks@,
                    first_fit_from(bs, 0, 0u32) == first_fit_from(bs, i as int, 0u32),
                decreases bs.len() - i,
            {
                if e.pool.blocks[i].is_free {
                    return Ok(e.pool.blocks[i].offset);
                }
                i += 1;
            }
            return Err(ErrorKind::QuotaExceeded);
        }
        let entry = &mut self.entries[k];
        proof {
            lemma_first_fit_props(old(self).entries@[k as int].pool.blocks@, 0, size);
        }
        let res = entry.pool.allocate(size, now);
        match res {
            Ok(offset) => {
                entry.stats.record_allocation(size);
                proof {
                    lemma_totals_entry_replaced(old(self).entries@, self.entries@, k as int);
                }
                Ok(offset)
            },
            Err(e) => {
                proof {
                    assert(self.entries@ =~= old(self).entries@);
                }
                Err(e)
            },
        }
    }

    /// Free the block at `offset` in a container's pool and merge adjacent
    /// free space.
    pub fn deallocate_block(&mut self, container_id: &str, offset: u32) -> (r: Result<
        (),
        ErrorKind,
    >)
        requires
            old(self).wf(),
        ensures
            final(self).wf(),
            final(self).global_limit == old(self).global_limit,
            final(self).total_allocated == old(self).total_allocated,
            final(self).gc_threshold_percent == old(self).gc_threshold_percent,
            final(self).auto_gc_enabled == old(self).auto_gc_enabled,
            ({
                let es = old(self).entries@;
                let k = entry_find_from(es, 0, container_id@);
                if k == es.len() {
                    r == Err::<(), ErrorKind>(ErrorKind::NotFound) && mm_unchanged(
                        *old(self),
                        *final(self),
                    )
                } else {
                    let bs = es[k].pool.blocks@;
                    let f = block_find_from(bs, 0, offset);
                    if f == bs.len() {
                        r == Err::<(), ErrorKind>(ErrorKind::NotFound) && mm_unchanged(
                            *old(self),
                            *final(self),
                        )
                    } else {
                        &&& r is Ok
                        &&& final(self).entries@.len() == es.len()
                        &&& forall|j: int|
                            0 <= j < es.len() && j != k ==> final(self).entries@[j] == es[j]
                        &&& ({
                            let e0 = es[k];
                            let e1 = final(self).entries@[k];
                            &&& e1.id == e0.id
                            &&& e1.pool.total_size == e0.pool.total_size
                            &&& e1.pool.used_size == e0.pool.used_size - bs[f].size
                            &&& e1.pool.blocks@ == dealloc_blocks(bs, f)
                            &&& coalesced(e1.pool.blocks@)
                            &&& e1.stats.deallocations as int == if e0.stats.deallocations
                                == u32::MAX {
                                u32::MAX as int
                            } else {
                                e0.stats.deallocations + 1
                            }
                            &&& e1.stats.used as int == if e0.stats.used >= bs[f].size {
                                e0.stats.used - bs[f].size
                            } else {
                                0
                            }
                            &&& e1.stats.peak == e0.stats.peak
                            &&& e1.stats.allocations == e0.stats.allocations
                            &&& e1.stats.allocated == e0.stats.allocated
                            &&& e1.stats.gc_runs == e0.stats.gc_runs
                            &&& e1.stats.last_gc == e0.stats.last_gc
                        })
                    }
                }
            }),
    {
        let k = find_entry(&self.entries, container_id);
        proof {
            lemma_entry_find_props(self.entries@, 0, container_id@);
        }
        if k == self.entries.len() {
            return Err(ErrorKind::NotFound);
        }
        let ghost bs = self.entries@[k as int].pool.blocks@;
        let fb = self.entries[k].pool.find_block(offset);
        proof {
            lemma_block_find_props(bs, 0, offset);
        }
        if fb == self.entries[k].pool.blocks.len() {
            return Err(ErrorKind::NotFound);
        }
        let freed = self.entries[k].pool.blocks[fb].size;
        let entry = &mut self.entries[k];
        let res = entry.pool.deallocate(offset);
        match res {
            Ok(_) => {
                entry.stats.record_deallocation(freed);
                proof {
                    lemma_totals_entry_replaced(old(self).entries@, self.entries@, k as int);
                }
                Ok(())
            },
            Err(_) => {
                proof {
                    assert(false);
                }
                Err(ErrorKind::NotFound)
            },
        }
    }

    /// Record a container's externally observed usage.
    pub fn update_container_usage(&mut self, container_id: &str, used: u32)
        requires
            old(self).wf(),
        ensures
            final(self).wf(),
            final(self).global_limit == old(self).global_limit,
            final(self).total_allocated == old(self).total_allocated,
            final(self).gc_threshold_percent == old(self).gc_threshold_percent,
            final(self).auto_gc_enabled == old(self).auto_gc_enabled,
            ({
                let es = old(self).entries@;
                let k = entry_find_from(es, 0, container_id@);
                if k == es.len() {
                    *final(self) == *old(self)
                } else {
                    &&& final(self).entries@.len() == es.len()
                    &&& forall|j: int|
                        0 <= j < es.len() && j != k ==> final(self).entries@[j] == es[j]
                    &&& final(self).entries@[k].id == es[k].id
                    &&& final(self).entries@[k].pool == es[k].pool
                    &&& final(self).entries@[k].stats.used == used
                }
            }),
    {
        let k = find_entry(&self.entries, container_id);
        proof {
            lemma_entry_find_props(self.entries@, 0, container_id@);
        }
        if k == self.entries.len() {
            return ;
        }
        let entry = &mut self.entries[k];
        entry.stats.update_usage(used);
        proof {
            lemma_totals_entry_replaced(old(self).entries@, self.entries@, k as int);
        }
    }

    /// Sweep one container: the pool is already coalesced, so the sweep only
    /// stamps the statistics. The merged-block count comes back.
    pub fn gc_container(&mut self, container_id: &str, now: u64) -> (r: Result<u32, ErrorKind>)
        requires
            old(self).wf(),
        ensures
            final(self).wf(),
            final(self).global_limit == old(self).global_limit,
            final(self).total_allocated == old(self).total_allocated,
            final(self).gc_threshold_percent == old(self).gc_threshold_percent,
            final(self).auto_gc_enabled == old(self).auto_gc_enabled,
            ({
                let es = old(self).entries@;
                let k = entry_find_from(es, 0, container_id@);
                if k == es.len() {
                    r == Ok::<u32, ErrorKind>(0) && *final(self) == *old(self)
                } else {
                    &&& r == Ok::<u32, ErrorKind>(0)
                    &&& final(self).entries@.len() == es.len()
                    &&& forall|j: int|
                        0 <= j < es.len() && j != k ==> final(self).entries@[j] == es[j]
                    &&& final(self).entries@[k].id == es[k].id
                    &&& final(self).entries@[k].pool == es[k].pool
                    &&& final(self).entries@[k].stats == gc_stamped(es[k].stats, now)
                }
            }),
    {
        let k = find_entry(&self.entries, container_id);
        proof {
            lemma_entry_find_props(self.entries@, 0, container_id@);
        }
        if k == self.entries.len() {
            return Ok(0);
        }
        let entry = &mut self.entries[k];
        let merged = entry.pool.garbage_collect();
        entry.stats.record_gc(now);
        proof {
            lemma_totals_entry_replaced(old(self).entries@, self.entries@, k as int);
        }
        Ok(merged)
    }

    /// Sweep every container and report the merged blocks.
    pub fn garbage_collect(&mut self, now: u64) -> (r: u32)
        requires
            old(self).wf(),
        ensures
            final(self).wf(),
            r == 0,
            final(self).global_limit == old(self).global_limit,
            final(self).total_allocated == old(self).total_allocated,
            final(self).gc_threshold_percent == old(self).gc_threshold_percent,
            final(self).auto_gc_enabled == old(self).auto_gc_enabled,
            final(self).entries@.len() == old(self).entries@.len(),
            forall|j: int|
                0 <= j < old(self).entries@.len() ==> {
                    let e0 = #[trigger] old(self).entries@[j];
                    let e1 = final(self).entries@[j];
                    e1.id == e0.id && e1.pool == e0.pool && e1.stats == gc_stamped(e0.stats, now)
                },
    {
        let n = self.entries.len();
        let mut j: usize = 0;
        while j < n
            invariant
                j <= n,
                n == self.entries@.len(),
                self.wf(),
                self.global_limit == old(self).global_limit,
                self.total_allocated == old(self).total_allocated,
                self.gc_threshold_percent == old(self).gc_threshold_percent,
                self.auto_gc_enabled == old(self).auto_gc_enabled,
                self.entries@.len() == old(self).entries@.len(),
                forall|t: int| j <= t < n ==> self.entries@[t] == old(self).entries@[t],
                forall|t: int|
                    0 <= t < j ==> {
                        let e0 = #[trigger] old(self).entries@[t];
                        let e1 = self.entries@[t];
                        e1.id == e0.id && e1.pool == e0.pool && e1.stats == gc_stamped(
                            e0.stats,
                            now,
                        )
                    },
            decreases n - j,
        {
            let ghost pre = self.entries@;
            let entry = &mut self.entries[j];
            let merged = entry.pool.garbage_collect();
            entry.stats.record_gc(now);
            proof {
                lemma_totals_entry_replaced(pre, self.entries@, j as int);
            }
            j += 1;
        }
        0
    }

    /// Run a sweep when usage crosses the configured trigger.
    pub fn check_gc_trigger(&mut self, now: u64)
        requires
            old(self).wf(),
        ensures
            final(self).wf(),
            ({
                let fire = old(self).auto_gc_enabled && old(self).global_limit > 0 && old(
                    self,
                ).total_allocated as int * 100 > old(self).gc_threshold_percent as int * old(
                    self,
                ).global_limit as int;
                if fire {
                    forall|j: int|
                        0 <= j < old(self).entries@.len() ==> {
                            let e0 = #[trigger] old(self).entries@[j];
                            let e1 = final(self).entries@[j];
                            e1.id == e0.id && e1.pool == e0.pool && e1.stats == gc_stamped(
                                e0.stats,
                                now,
                            )
                        }
                } else {
                    *final(self) == *old(self)
                }
            }),
    {
        if self.auto_gc_enabled && self.global_limit > 0 {
            proof {
                assert((self.gc_threshold_percent as int) * (self.global_limit as int)
                    < 0x10000000000000000) by (nonlinear_arith)
                    requires
                        (self.gc_threshold_percent as int) < 0x100000000,
                        (self.global_limit as int) < 0x100000000,
                ;
            }
            let usage = (self.total_allocated as u64) * 100;
            let bound = (self.gc_threshold_percent as u64) * (self.global_limit as u64);
            if usage > bound {
                self.garbage_collect(now);
            }
        }
    }

    /// A copy of a container's counters.
    pub fn get_container_stats(&self, container_id: &str) -> (r: Option<MemoryStats>)
        ensures
            ({
                let es = self.entries@;
                let k = entry_find_from(es, 0, container_id@);
                match r {
                    Some(st) => k < es.len() && st == es[k].stats,
                    None => k == es.len(),
                }
            }),
    {
        let k = find_entry(&self.entries, container_id);
        proof {
            lemma_entry_find_props(self.entries@, 0, container_id@);
        }
        if k < self.entries.len() {
            Some(self.entries[k].stats)
        } else {
            None
        }
    }

    /// A point-in-time summary of a container's pool.
    #[verifier::loop_isolation(false)]
    pub fn get_pool_stats(&self, container_id: &str) -> (r: Option<MemoryPoolStats>)
        requires
            self.wf(),
        ensures
            ({
                let es = self.entries@;
                let k = entry_find_from(es, 0, container_id@);
                match r {
                    Some(st) => {
                        let bs = es[k].pool.blocks@;
                        &&& k < es.len()
                        &&& st.pool_id@ == es[k].pool.pool_id@
                        &&& st.total_size == es[k].pool.total_size
                        &&& st.used_size == es[k].pool.used_size
                        &&& st.free_size == es[k].pool.total_size - es[k].pool.used_size
                        &&& st.total_blocks == bs.len()
                        &&& st.free_blocks as int == free_count_from(bs, 0)
                        &&& st.fragmentation_percent as int == if free_total_from(bs, 0) > 0 {
                            100 - largest_free_from(bs, 0) * 100 / free_total_from(bs, 0)
                        } else {
                            0
                        }
                    },
                    None => k == es.len(),
                }
            }),
    {
        let k = find_entry(&self.entries, container_id);
        proof {
            lemma_entry_find_props(self.entries@, 0, container_id@);
        }
        if k == self.entries.len() {
            return None;
        }
        let pool = &self.entries[k].pool;
        let ghost bs = pool.blocks@;
        let n = pool.blocks.len();
        let mut frees: u64 = 0;
        let mut free_total: u64 = 0;
        let mut largest: u64 = 0;
        let mut i: usize = n;
        while i > 0
            invariant
                i <= n,
                n == bs.len(),
                frees as int == free_count_from(bs, i as int),
                free_total as int == free_total_from(bs, i as int),
                largest as int == largest_free_from(bs, i as int),
                frees as int <= n - i,
                free_total <= 0xffffffffu64,
                largest <= free_total,
            decreases i,
        {
            i -= 1;
            proof {
                lemma_free_le_sizes(bs, i as int);
                lemma_sizes_suffix_le(bs, 0, i as int);
                lemma_partition_total(bs, self.entries@[k as int].pool.total_size);
                lemma_largest_le_total(bs, i as int);
                lemma_free_count_bound(bs, i as int);
            }
            let b = pool.blocks[i];
            if b.is_free {
                frees = frees + 1;
                free_total = free_total + (b.size as u64);
                if (b.size as u64) > largest {
                    largest = b.size as u64;
                }
            }
        }
        let frag: u64 = if free_total > 0 {
            proof {
                lemma_largest_le_total(bs, 0);
                assert(largest as int * 100 / free_total as int <= 100) by (nonlinear_arith)
                    requires
                        0 < free_total as int,
                        0 <= largest as int <= free_total as int,
                ;
            }
            100 - (largest * 100) / free_total
        } else {
            0
        };
        proof {
            lemma_used_le_total(bs, 0);
            lemma_partition_total(bs, self.entries@[k as int].pool.total_size);
        }
        Some(
            MemoryPoolStats {
                pool_id: pool.pool_id.clone(),
                total_size: pool.total_size,
                used_size: pool.used_size,
                free_size: pool.total_size - pool.used_size,
                total_blocks: n,
                free_blocks: frees,
                fragmentation_percent: frag,
            },
        )
    }

    /// Clear every pool and counter.
    pub fn cleanup(&mut self)
        ensures
            final(self).wf(),
            final(self).entries@.len() == 0,
            final(self).total_allocated == 0,
            final(self).global_limit == old(self).global_limit,
            final(self).gc_threshold_percent == old(self).gc_threshold_percent,
            final(self).auto_gc_enabled == old(self).auto_gc_enabled,
    {
        self.entries.clear();
        self.total_allocated = 0;
    }

    /// Set the global ceiling for future pool creation.
    pub fn set_global_limit(&mut self, limit: u32)
        requires
            old(self).wf(),
        ensures
            final(self).wf(),
            final(self).global_limit == limit,
            final(self).entries == old(self).entries,
            final(self).total_allocated == old(self).total_allocated,
            final(self).gc_threshold_percent == old(self).gc_threshold_percent,
            final(self).auto_gc_enabled == old(self).auto_gc_enabled,
    {
        self.global_limit = limit;
    }

    /// Configure the sweep trigger; the threshold is clamped to 10..=95
    /// percent.
    pub fn configure_gc(&mut self, threshold_percent: u32, auto_enabled: bool)
        requires
            old(self).wf(),
        ensures
            final(self).wf(),
            final(self).gc_threshold_percent == if threshold_percent < 10 {
                10u32
            } else if threshold_percent > 95 {
                95u32
            } else {
                threshold_percent
            },
            final(self).auto_gc_enabled == auto_enabled,
            final(self).entries == old(self).entries,
            final(self).total_allocated == old(self).total_allocated,
            final(self).global_limit == old(self).global_limit,
    {
        self.gc_threshold_percent = if threshold_percent < 10 {
            10
        } else if threshold_percent > 95 {
            95
        } else {
            threshold_percent
        };
        self.auto_gc_enabled = auto_enabled;
    }
}

/// The free-block count is bounded by the number of blocks left.
pub proof fn lemma_free_count_bound(bs: Seq<MemoryBlock>, i: int)
    requires
        0 <= i,
    ensures
        0 <= free_count_from(bs, i) <= bs.len() - i || (i >= bs.len() && free_count_from(bs, i)
            == 0),
    decreases bs.len() - i,
{
    if i < bs.len() {
        lemma_free_count_bound(bs, i + 1);
    }
}

/// The largest free block never exceeds the free total.
proof fn lemma_largest_le_total(bs: Seq<MemoryBlock>, i: int)
    requires
        0 <= i,
    ensures
        0 <= largest_free_from(bs, i) <= free_total_from(bs, i),
        free_total_from(bs, i) >= 0,
    decreases bs.len() - i,
{
    if i < bs.len() {
        lemma_largest_le_total(bs, i + 1);
    }
}

/// Entry sequences with identical pools have identical totals.
pub proof fn lemma_totals_same_pools(es1: Seq<PoolEntry>, es2: Seq<PoolEntry>, i: int)
    requires
        0 <= i <= es1.len(),
        es1.len() == es2.len(),
        forall|j: int| 0 <= j < i ==> (#[trigger] es1[j]).pool.total_size == es2[j].pool.total_size,
    ensures
        totals_to(es1, i) == totals_to(es2, i),
    decreases i,
{
    if i > 0 {
        lemma_totals_same_pools(es1, es2, i - 1);
    }
}


/// Replacing one entry while keeping its pool span keeps the totals.
pub proof fn lemma_totals_entry_replaced(pre: Seq<PoolEntry>, post: Seq<PoolEntry>, k: int)
    requires
        pre.len() == post.len(),
        0 <= k < pre.len(),
        forall|j: int| 0 <= j < pre.len() && j != k ==> post[j] == pre[j],
        post[k].pool.total_size == pre[k].pool.total_size,
    ensures
        totals_to(post, post.len() as int) == totals_to(pre, pre.len() as int),
{
    assert forall|j: int| 0 <= j < pre.len() implies (#[trigger] pre[j]).pool.total_size
        == post[j].pool.total_size by {}
    lemma_totals_same_pools(pre, post, pre.len() as int);
}

/// Suffix size sums shrink as the start index grows.
pub proof fn lemma_sizes_suffix_le(bs: Seq<MemoryBlock>, i: int, j: int)
    requires
        0 <= i <= j,
    ensures
        sizes_from(bs, j) <= sizes_from(bs, i),
    decreases j - i,
{
    if i < j {
        lemma_sizes_suffix_le(bs, i + 1, j);
        lemma_sizes_nonneg(bs, i + 1);
        if i < bs.len() {
        }
    }
}

/// Size sums are non-negative.
pub proof fn lemma_sizes_nonneg(bs: Seq<MemoryBlock>, i: int)
    requires
        0 <= i,
    ensures
        sizes_from(bs, i) >= 0,
    decreases bs.len() - i,
{
    if i < bs.len() {
        lemma_sizes_nonneg(bs, i + 1);
    }
}

/// Free bytes never exceed the sizes from the same index.
pub proof fn lemma_free_le_sizes(bs: Seq<MemoryBlock>, i: int)
    requires
        0 <= i,
    ensures
        0 <= free_total_from(bs, i) <= sizes_from(bs, i),
    decreases bs.len() - i,
{
    if i < bs.len() {
        lemma_free_le_sizes(bs, i + 1);
    }
}


/// At every well-formed point the block sizes of a pool sum to its total
/// size, and the used blocks' sizes to its used counter.
pub proof fn lemma_pool_accounting(p: MemoryPool)
    requires
        p.wf(),
    ensures
        sizes_from(p.blocks@, 0) == p.total_size,
        used_from(p.blocks@, 0) == p.used_size,
{
    lemma_partition_total(p.blocks@, p.total_size);
}

/// A report is sound: some container carries it and its rule fires.
pub open spec fn report_valid(es: Seq<PoolEntry>, rep: MemoryLeakReport, now: u64) -> bool {
    exists|e: int|
        0 <= e < es.len() && (#[trigger] es[e]).id@ == rep.container_id@ && (match rep.leak_type {
            LeakType::AllocationImbalance => rule_imbalance(es[e].stats),
            LeakType::HighUtilization => rule_high_utilization(es[e].stats),
            LeakType::NoRecentGC => rule_no_recent_gc(es[e].stats, now),
            LeakType::FragmentationHigh => rule_fragmentation(es[e].pool.blocks@),
        })
}

/// A rule fired for the container at `e` and a report in `r` says so.
pub open spec fn reported(r: Seq<MemoryLeakReport>, es: Seq<PoolEntry>, e: int, t: LeakType) -> bool {
    exists|x: int| 0 <= x < r.len() && (#[trigger] r[x]).container_id@ == es[e].id@ && r[x].leak_type == t
}

/// The free-block shape of one pool: count, total bytes and the largest
/// block of the free space.
fn pool_free_shape(pool: &MemoryPool) -> (r: (u64, u64, u64))
        requires
            pool.wf(),
        ensures
            r.0 as int == free_count_from(pool.blocks@, 0),
            r.1 as int == free_total_from(pool.blocks@, 0),
            r.2 as int == largest_free_from(pool.blocks@, 0),
            r.1 <= 0xffffffffu64,
            r.2 <= r.1,
    {
        let ghost bs = pool.blocks@;
        let n = pool.blocks.len();
        let mut frees: u64 = 0;
        let mut free_total: u64 = 0;
        let mut largest: u64 = 0;
        let mut i: usize = n;
        while i > 0
            invariant
                i <= n,
                n == bs.len(),
                bs == pool.blocks@,
                pool.wf(),
                frees as int == free_count_from(bs, i as int),
                free_total as int == free_total_from(bs, i as int),
                largest as int == largest_free_from(bs, i as int),
                frees as int <= n - i,
                free_total <= 0xffffffffu64,
                largest <= free_total,
            decreases i,
        {
            i -= 1;
            proof {
                lemma_free_le_sizes(bs, i as int);
                lemma_sizes_suffix_le(bs, 0, i as int);
                lemma_partition_total(bs, pool.total_size);
                lemma_largest_le_total(bs, i as int);
                lemma_free_count_bound(bs, i as int);
            }
            let b = pool.blocks[i];
            if b.is_free {
                frees = frees + 1;
                free_total = free_total + (b.size as u64);
                if (b.size as u64) > largest {
                    largest = b.size as u64;
                }
            }
        }
    (frees, free_total, largest)
}

impl MemoryManager {
    /// The leak findings over every container, one report per fired rule:
    /// allocation imbalance (allocations more than double the deallocations,
    /// both as running counts), high utilisation (over half the pool and
    /// above ninety percent), no sweep within the last hour while memory is
    /// held, and fragmented free space (more than four free blocks, the
    /// largest under half the free bytes).
    #[verifier::loop_isolation(false)]
    #[verifier::rlimit(100)]
    pub fn detect_leaks(&self, now: u64) -> (r: Vec<MemoryLeakReport>)
        requires
            self.wf(),
        ensures
            forall|t: int| 0 <= t < r@.len() ==> report_valid(self.entries@, #[trigger] r@[t], now),
            forall|e: int|
                0 <= e < self.entries@.len() ==> {
                    let st = (#[trigger] self.entries@[e]).stats;
                    &&& (rule_imbalance(st) ==> reported(
                        r@,
                        self.entries@,
                        e,
                        LeakType::AllocationImbalance,
                    ))
                    &&& (rule_high_utilization(st) ==> reported(
                        r@,
                        self.entries@,
                        e,
                        LeakType::HighUtilization,
                    ))
                    &&& (rule_no_recent_gc(st, now) ==> reported(
                        r@,
                        self.entries@,
                        e,
                        LeakType::NoRecentGC,
                    ))
                    &&& (rule_fragmentation(self.entries@[e].pool.blocks@) ==> reported(
                        r@,
                        self.entries@,
                        e,
                        LeakType::FragmentationHigh,
                    ))
                },
    {
        let ghost es = self.entries@;
        let mut out: Vec<MemoryLeakReport> = Vec::new();
        let n = self.entries.len();
        let mut j: usize = 0;
        while j < n
            invariant
                j <= n,
                n == es.len(),
                forall|t: int| 0 <= t < out@.len() ==> report_valid(es, #[trigger] out@[t], now),
                forall|e: int|
                    0 <= e < j ==> {
                        let st = (#[trigger] es[e]).stats;
                        &&& (rule_imbalance(st) ==> reported(
                            out@,
                            es,
                            e,
                            LeakType::AllocationImbalance,
                        ))
                        &&& (rule_high_utilization(st) ==> reported(
                            out@,
                            es,
                            e,
                            LeakType::HighUtilization,
                        ))
                        &&& (rule_no_recent_gc(st, now) ==> reported(out@, es, e, LeakType::NoRecentGC))
                        &&& (rule_fragmentation(es[e].pool.blocks@) ==> reported(
                            out@,
                            es,
                            e,
                            LeakType::FragmentationHigh,
                        ))
                    },
            decreases n - j,
        {
            let ghost before = out@;
            let entry = &self.entries[j];
            let st = entry.stats;
            let ghost p1: int = out@.len() as int;
            if st.allocations > 0 && st.deallocations > 0 && (st.allocations as u64) > 2 * (
            st.deallocations as u64) {
                let sev = if (st.allocations as u64) > 10 * (st.deallocations as u64) {
                    LeakSeverity::High
                } else {
                    LeakSeverity::Medium
                };
                out.push(
                    MemoryLeakReport {
                        container_id: entry.id.clone(),
                        leak_type: LeakType::AllocationImbalance,
                        severity: sev,
                        description: "allocations outnumber deallocations".to_owned(),
                        suggested_action: "check the release paths".to_owned(),
                    },
                );
            }
            let ghost p2: int = out@.len() as int;
            if st.allocated > 0 && st.used > st.allocated / 2 && (st.used as u64) * 10 > (
            st.allocated as u64) * 9 {
                out.push(
                    MemoryLeakReport {
                        container_id: entry.id.clone(),
                        leak_type: LeakType::HighUtilization,
                        severity: LeakSeverity::Medium,
                        description: "the pool is nearly exhausted".to_owned(),
                        suggested_action: "sweep or raise the pool size".to_owned(),
                    },
                );
            }
            let ghost p3: int = out@.len() as int;
            if now > st.last_gc && now - st.last_gc > 3600000 && st.used > 0 {
                out.push(
                    MemoryLeakReport {
                        container_id: entry.id.clone(),
                        leak_type: LeakType::NoRecentGC,
                        severity: LeakSeverity::Low,
                        description: "no sweep within the last hour".to_owned(),
                        suggested_action: "run a sweep".to_owned(),
                    },
                );
            }
            let ghost p4: int = out@.len() as int;
            let shape = pool_free_shape(&entry.pool);
            if shape.0 > 4 && 2 * shape.2 < shape.1 {
                out.push(
                    MemoryLeakReport {
                        container_id: entry.id.clone(),
                        leak_type: LeakType::FragmentationHigh,
                        severity: LeakSeverity::Medium,
                        description: "the free space is fragmented".to_owned(),
                        suggested_action: "compact by releasing and reallocating".to_owned(),
                    },
                );
            }
            proof {
                assert forall|e: int|
                    0 <= e < j + 1 implies {
                    let st2 = (#[trigger] es[e]).stats;
                    &&& (rule_imbalance(st2) ==> reported(
                        out@,
                        es,
                        e,
                        LeakType::AllocationImbalance,
                    ))
                    &&& (rule_high_utilization(st2) ==> reported(
                        out@,
                        es,
                        e,
                        LeakType::HighUtilization,
                    ))
                    &&& (rule_no_recent_gc(st2, now) ==> reported(out@, es, e, LeakType::NoRecentGC))
                    &&& (rule_fragmentation(es[e].pool.blocks@) ==> reported(
                        out@,
                        es,
                        e,
                        LeakType::FragmentationHigh,
                    ))
                } by {
                    if e < j {
                        let st2 = es[e].stats;
                        if rule_imbalance(st2) {
                            let x0 = choose|x: int|
                                0 <= x < before.len() && (#[trigger] before[x]).container_id@
                                    == es[e].id@ && before[x].leak_type
                                    == LeakType::AllocationImbalance;
                            assert(out@[x0] == before[x0]);
                        }
                        if rule_high_utilization(st2) {
                            let x0 = choose|x: int|
                                0 <= x < before.len() && (#[trigger] before[x]).container_id@
                                    == es[e].id@ && before[x].leak_type
                                    == LeakType::HighUtilization;
                            assert(out@[x0] == before[x0]);
                        }
                        if rule_no_recent_gc(st2, now) {
                            let x0 = choose|x: int|
                                0 <= x < before.len() && (#[trigger] before[x]).container_id@
                                    == es[e].id@ && before[x].leak_type == LeakType::NoRecentGC;
                            assert(out@[x0] == before[x0]);
                        }
                        if rule_fragmentation(es[e].pool.blocks@) {
                            let x0 = choose|x: int|
                                0 <= x < before.len() && (#[trigger] before[x]).container_id@
                                    == es[e].id@ && before[x].leak_type
                                    == LeakType::FragmentationHigh;
                            assert(out@[x0] == before[x0]);
                        }
                    } else {
                        if rule_imbalance(es[e].stats) {
                            assert(out@[p1].container_id@ == es[e].id@ && out@[p1].leak_type
                                == LeakType::AllocationImbalance);
                        }
                        if rule_high_utilization(es[e].stats) {
                            assert(out@[p2].container_id@ == es[e].id@ && out@[p2].leak_type
                                == LeakType::HighUtilization);
                        }
                        if rule_no_recent_gc(es[e].stats, now) {
                            assert(out@[p3].container_id@ == es[e].id@ && out@[p3].leak_type
                                == LeakType::NoRecentGC);
                        }
                        if rule_fragmentation(es[e].pool.blocks@) {
                            assert(out@[p4].container_id@ == es[e].id@ && out@[p4].leak_type
                                == LeakType::FragmentationHigh);
                        }
                    }
                }
            }
            j += 1;
        }
        out
    }
}


/// Engine-wide memory counters; the sums saturate at the counter maximum.
pub struct GlobalMemoryStats {
    pub total_allocated: u32,
    pub total_used: u64,
    pub total_peak: u64,
    pub global_limit: u32,
    pub container_count: usize,
    pub total_allocations: u64,
    pub total_deallocations: u64,
    pub total_gc_runs: u64,
    pub usage_ratio_percent: u64,
}

/// The used bytes of the first `i` entries' counters.
pub open spec fn sum_stats_used(es: Seq<PoolEntry>, i: int) -> int
    decreases i,
{
    if i <= 0 {
        0
    } else {
        sum_stats_used(es, i - 1) + es[i - 1].stats.used
    }
}

/// The peak bytes of the first `i` entries' counters.
pub open spec fn sum_stats_peak(es: Seq<PoolEntry>, i: int) -> int
    decreases i,
{
    if i <= 0 {
        0
    } else {
        sum_stats_peak(es, i - 1) + es[i - 1].stats.peak
    }
}

/// The allocations of the first `i` entries' counters.
pub open spec fn sum_stats_allocs(es: Seq<PoolEntry>, i: int) -> int
    decreases i,
{
    if i <= 0 {
        0
    } else {
        sum_stats_allocs(es, i - 1) + es[i - 1].stats.allocations
    }
}

/// The deallocations of the first `i` entries' counters.
pub open spec fn sum_stats_deallocs(es: Seq<PoolEntry>, i: int) -> int
    decreases i,
{
    if i <= 0 {
        0
    } else {
        sum_stats_deallocs(es, i - 1) + es[i - 1].stats.deallocations
    }
}

/// The sweeps of the first `i` entries' counters.
pub open spec fn sum_stats_gcs(es: Seq<PoolEntry>, i: int) -> int
    decreases i,
{
    if i <= 0 {
        0
    } else {
        sum_stats_gcs(es, i - 1) + es[i - 1].stats.gc_runs
    }
}

/// `x` clamped to the u64 range.
pub open spec fn clamp_u64(x: int) -> int {
    if x <= u64::MAX {
        x
    } else {
        u64::MAX as int
    }
}

impl MemoryManager {
    /// The engine-wide counters: the allocated and observed totals over
    /// every container, and the allocated share of the global ceiling.
    #[verifier::loop_isolation(false)]
    pub fn get_global_stats(&self) -> (r: GlobalMemoryStats)
        requires
            self.wf(),
        ensures
            r.total_allocated == self.total_allocated,
            r.global_limit == self.global_limit,
            r.container_count == self.entries@.len(),
            r.total_used as int == clamp_u64(sum_stats_used(self.entries@, self.entries@.len() as int)),
            r.total_peak as int == clamp_u64(sum_stats_peak(self.entries@, self.entries@.len() as int)),
            r.total_allocations as int == clamp_u64(
                sum_stats_allocs(self.entries@, self.entries@.len() as int),
            ),
            r.total_deallocations as int == clamp_u64(
                sum_stats_deallocs(self.entries@, self.entries@.len() as int),
            ),
            r.total_gc_runs as int == clamp_u64(
                sum_stats_gcs(self.entries@, self.entries@.len() as int),
            ),
            r.usage_ratio_percent as int == if self.global_limit > 0 {
                self.total_allocated as int * 100 / self.global_limit as int
            } else {
                0
            },
    {
        let used64 = sum_used_exec(&self.entries);
        let peak64 = sum_peak_exec(&self.entries);
        let allocs64 = sum_allocs_exec(&self.entries);
        let deallocs64 = sum_deallocs_exec(&self.entries);
        let gcs64 = sum_gcs_exec(&self.entries);
        let ratio: u64 = if self.global_limit > 0 {
            (self.total_allocated as u64) * 100 / (self.global_limit as u64)
        } else {
            0
        };
        GlobalMemoryStats {
            total_allocated: self.total_allocated,
            total_used: used64,
            total_peak: peak64,
            global_limit: self.global_limit,
            container_count: self.entries.len(),
            total_allocations: allocs64,
            total_deallocations: deallocs64,
            total_gc_runs: gcs64,
            usage_ratio_percent: ratio,
        }
    }
}

/// Counter sums never decrease below zero.
proof fn lemma_stats_sums_nonneg(es: Seq<PoolEntry>, i: int)
    requires
        0 <= i <= es.len(),
    ensures
        sum_stats_used(es, i) >= 0,
        sum_stats_peak(es, i) >= 0,
        sum_stats_allocs(es, i) >= 0,
        sum_stats_deallocs(es, i) >= 0,
        sum_stats_gcs(es, i) >= 0,
    decreases i,
{
    if i > 0 {
        lemma_stats_sums_nonneg(es, i - 1);
    }
}


/// The clamped sum of every entry's used-byte counter.
fn sum_used_exec(es: &Vec<PoolEntry>) -> (r: u64)
    ensures
        r as int == clamp_u64(sum_stats_used(es@, es@.len() as int)),
{
    let mut acc: u128 = 0;
    let mut i: usize = 0;
    while i < es.len()
        invariant
            i <= es@.len(),
            acc as int == sum_stats_used(es@, i as int),
            acc as int <= i as int * 0x100000000,
        decreases es@.len() - i,
    {
        acc = acc + (es[i].stats.used as u128);
        i += 1;
    }
    if acc > u64::MAX as u128 {
        u64::MAX
    } else {
        acc as u64
    }
}

/// The clamped sum of every entry's peak-byte counter.
fn sum_peak_exec(es: &Vec<PoolEntry>) -> (r: u64)
    ensures
        r as int == clamp_u64(sum_stats_peak(es@, es@.len() as int)),
{
    let mut acc: u128 = 0;
    let mut i: usize = 0;
    while i < es.len()
        invariant
            i <= es@.len(),
            acc as int == sum_stats_peak(es@, i as int),
            acc as int <= i as int * 0x100000000,
        decreases es@.len() - i,
    {
        acc = acc + (es[i].stats.peak as u128);
        i += 1;
    }
    if acc > u64::MAX as u128 {
        u64::MAX
    } else {
        acc as u64
    }
}

/// The clamped sum of every entry's allocation counter.
fn sum_allocs_exec(es: &Vec<PoolEntry>) -> (r: u64)
    ensures
        r as int == clamp_u64(sum_stats_allocs(es@, es@.len() as int)),
{
    let mut acc: u128 = 0;
    let mut i: usize = 0;
    while i < es.len()
        invariant
            i <= es@.len(),
            acc as int == sum_stats_allocs(es@, i as int),
            acc as int <= i as int * 0x100000000,
        decreases es@.len() - i,
    {
        acc = acc + (es[i].stats.allocations as u128);
        i += 1;
    }
    if acc > u64::MAX as u128 {
        u64::MAX
    } else {
        acc as u64
    }
}

/// The clamped sum of every entry's deallocation counter.
fn sum_deallocs_exec(es: &Vec<PoolEntry>) -> (r: u64)
    ensures
        r as int == clamp_u64(sum_stats_deallocs(es@, es@.len() as int)),
{
    let mut acc: u128 = 0;
    let mut i: usize = 0;
    while i < es.len()
        invariant
            i <= es@.len(),
            acc as int == sum_stats_deallocs(es@, i as int),
            acc as int <= i as int * 0x100000000,
        decreases es@.len() - i,
    {
        acc = acc + (es[i].stats.deallocations as u128);
        i += 1;
    }
    if acc > u64::MAX as u128 {
        u64::MAX
    } else {
        acc as u64
    }
}

/// The clamped sum of every entry's sweep counter.
fn sum_gcs_exec(es: &Vec<PoolEntry>) -> (r: u64)
    ensures
        r as int == clamp_u64(sum_stats_gcs(es@, es@.len() as int)),
{
    let mut acc: u128 = 0;
    let mut i: usize = 0;
    while i < es.len()
        invariant
            i <= es@.len(),
            acc as int == sum_stats_gcs(es@, i as int),
            acc as int <= i as int * 0x100000000,
        decreases es@.len() - i,
    {
        acc = acc + (es[i].stats.gc_runs as u128);
        i += 1;
    }
    if acc > u64::MAX as u128 {
        u64::MAX
    } else {
        acc as u64
    }
}

impl MemoryPool {
    /// A point-in-time summary of this pool.
    pub fn get_stats(&self) -> (r: MemoryPoolStats)
        requires
            self.wf(),
        ensures
            r.pool_id@ == self.pool_id@,
            r.total_size == self.total_size,
            r.used_size == self.used_size,
            r.free_size == self.total_size - self.used_size,
            r.total_blocks == self.blocks@.len(),
            r.free_blocks as int == free_count_from(self.blocks@, 0),
            r.fragmentation_percent as int == if free_total_from(self.blocks@, 0) > 0 {
                100 - largest_free_from(self.blocks@, 0) * 100 / free_total_from(self.blocks@, 0)
            } else {
                0
            },
    {
        let shape = pool_free_shape(self);
        let frag: u64 = if shape.1 > 0 {
            proof {
                lemma_largest_le_total(self.blocks@, 0);
                assert(largest_free_from(self.blocks@, 0) * 100 / free_total_from(self.blocks@, 0)
                    <= 100) by (nonlinear_arith)
                    requires
                        0 < free_total_from(self.blocks@, 0),
                        0 <= largest_free_from(self.blocks@, 0) <= free_total_from(
                            self.blocks@,
                            0,
                        ),
                ;
            }
            100 - (shape.2 * 100) / shape.1
        } else {
            0
        };
        proof {
            lemma_used_le_total(self.blocks@, 0);
            lemma_partition_total(self.blocks@, self.total_size);
        }
        MemoryPoolStats {
            pool_id: self.pool_id.clone(),
            total_size: self.total_size,
            used_size: self.used_size,
            free_size: self.total_size - self.used_size,
            total_blocks: self.blocks.len(),
            free_blocks: shape.0,
            fragmentation_percent: frag,
        }
    }
}

} // verus!
