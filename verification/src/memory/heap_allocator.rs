//! The kernel heap: a first-fit free-list allocator over the fixed virtual
//! region `[HEAP_START, HEAP_START + HEAP_SIZE)`.
//!
//! Free space is a list of blocks `{addr, size}`. Allocation scans for the
//! first block that can host the request at its alignment, splits off any
//! leading padding and, when the tail remainder could host another block
//! header, the tail too; otherwise the tail is consumed with the
//! allocation. Deallocation reinserts a block at the front of the list and
//! never merges neighbours; fragmentation accumulates by design, and no
//! frame is ever handed back.

#![verifier::loop_isolation(false)]

use vstd::prelude::*;
use crate::memory::frame_allocator::BootInfoFrameAllocator;
use crate::memory::frame_allocator::lemma_usable_frames_aligned;
use crate::memory::paging::MapToError;
use crate::memory::paging::OffsetPageTable;
use crate::memory::paging::PageFlags;
use crate::memory::paging::create_mapping;
use crate::memory::paging::PageTableEntry;
use crate::memory::paging::lemma_nearby_pages_not_same_slot;
use crate::memory::paging::lemma_same_page_same_slot;
use crate::memory::paging::same_slot;
use crate::memory::paging::spec_p2_index;
use crate::memory::paging::spec_p3_index;
use crate::memory::paging::spec_p4_index;
use crate::memory::frame_allocator::lemma_usable_frames_distinct;

verus! {

/// Start of the kernel heap's fixed virtual region.
pub const HEAP_START: u64 = 0x4444_4444_0000;

/// Size of the kernel heap's fixed virtual region: 1 MiB.
pub const HEAP_SIZE: u64 = 0x10_0000;

/// The smallest tail remainder worth keeping as a block of its own: a
/// split-off block must be able to host a block header.
pub const MIN_BLOCK_SIZE: u64 = 16;

/// One node of the free list: an unused run of `size` bytes at `addr`.
#[derive(Clone, Copy, PartialEq, Eq, Structural, Debug)]
pub struct FreeBlock {
    pub addr: u64,
    pub size: u64,
}

/// `addr` rounded up to the next multiple of `align`.
pub open spec fn spec_align_up(addr: int, align: int) -> int {
    if addr % align == 0 {
        addr
    } else {
        addr + (align - addr % align)
    }
}

/// Whether a request of `size` bytes at alignment `align` fits inside the
/// block: the aligned start plus the size stays within the block.
pub open spec fn block_fits(b: FreeBlock, size: int, align: int) -> bool {
    spec_align_up(b.addr as int, align) + size <= b.addr + b.size
}

/// Index of the first block of the list that fits the request, if any.
pub open spec fn first_fit(blocks: Seq<FreeBlock>, size: int, align: int) -> Option<int>
    decreases blocks.len(),
{
    if blocks.len() == 0 {
        None
    } else if block_fits(blocks[0], size, align) {
        Some(0)
    } else {
        match first_fit(blocks.drop_first(), size, align) {
            Some(i) => Some(i + 1),
            None => None,
        }
    }
}

/// Sum of the sizes of all blocks of a free list.
pub open spec fn free_total(blocks: Seq<FreeBlock>) -> int
    decreases blocks.len(),
{
    if blocks.len() == 0 {
        0
    } else {
        blocks[0].size + free_total(blocks.drop_first())
    }
}

/// The pieces a chosen block leaves behind when the request is carved out
/// of it: the leading padding below the aligned start, if any, and the
/// tail remainder when it can host another block header.
pub open spec fn split_pieces(b: FreeBlock, size: int, align: int) -> Seq<FreeBlock> {
    let aligned = spec_align_up(b.addr as int, align);
    let front = aligned - b.addr;
    let rem = b.addr + b.size - (aligned + size);
    let lead: Seq<FreeBlock> = if front > 0 {
        seq![FreeBlock { addr: b.addr, size: front as u64 }]
    } else {
        Seq::empty()
    };
    let tail: Seq<FreeBlock> = if rem >= MIN_BLOCK_SIZE {
        seq![FreeBlock { addr: (aligned + size) as u64, size: rem as u64 }]
    } else {
        Seq::empty()
    };
    lead + tail
}

/// The free list after a successful allocation from the block at index
/// `i`: that block is replaced by what the split leaves behind.
pub open spec fn after_alloc(blocks: Seq<FreeBlock>, i: int, size: int, align: int) -> Seq<
    FreeBlock,
> {
    blocks.take(i) + split_pieces(blocks[i], size, align) + blocks.skip(i + 1)
}

/// Two blocks share no byte.
pub open spec fn blocks_disjoint(a: FreeBlock, b: FreeBlock) -> bool {
    a.addr + a.size <= b.addr || b.addr + b.size <= a.addr
}

/// A well-formed free list over the heap region `[start, start + total)`:
/// every block lies inside the region, is non-empty, and no two blocks
/// overlap.
pub open spec fn free_list_wf(blocks: Seq<FreeBlock>, start: int, total: int) -> bool {
    &&& forall|k: int|
        0 <= k < blocks.len() ==> {
            let b = #[trigger] blocks[k];
            start <= b.addr && b.addr + b.size <= start + total && b.size > 0
        }
    &&& forall|k1: int, k2: int|
        0 <= k1 < blocks.len() && 0 <= k2 < blocks.len() && k1 != k2 ==> blocks_disjoint(
            #[trigger] blocks[k1],
            #[trigger] blocks[k2],
        )
}

/// The heap allocator's model state: the free list over the one fixed
/// region, initialized exactly once.
pub struct HeapAllocator {
    pub free: Vec<FreeBlock>,
    pub start: u64,
    pub size: u64,
    pub initialized: bool,
}

impl HeapAllocator {
    /// Whether the allocator has been initialized.
    pub open spec fn spec_initialized(self) -> bool {
        self.initialized
    }

    /// The heap region's start, as given to `init`.
    pub open spec fn spec_start(self) -> int {
        self.start as int
    }

    /// The heap region's size, as given to `init`.
    pub open spec fn spec_size(self) -> int {
        self.size as int
    }

    /// The current free list, front to back, in scan order.
    pub open spec fn spec_free(self) -> Seq<FreeBlock> {
        self.free@
    }

    /// The heap region itself fits the address space, and the free list is
    /// well formed over it: blocks inside the region, non-empty, and
    /// pairwise disjoint.
    pub open spec fn wf(self) -> bool {
        self.initialized ==> {
            &&& self.start + self.size <= u64::MAX
            &&& free_list_wf(self.free@, self.start as int, self.size as int)
        }
    }

    /// A fresh, uninitialized allocator: no free space at all.
    pub fn new() -> (r: Self)
        ensures
            r.wf(),
            !r.spec_initialized(),
    {
        HeapAllocator { free: Vec::new(), start: 0, size: 0, initialized: false }
    }

    /// One-time initialization over the heap region: the whole region
    /// becomes the single free block. Re-initialization is a defect, ruled
    /// out by the precondition.
    pub fn init(&mut self, heap_start: u64, heap_size: u64)
        requires
            !old(self).spec_initialized(),
            heap_size > 0,
            heap_start + heap_size <= u64::MAX,
        ensures
            final(self).wf(),
            final(self).spec_initialized(),
            final(self).spec_start() == heap_start,
            final(self).spec_size() == heap_size,
            final(self).spec_free() =~= seq![FreeBlock { addr: heap_start, size: heap_size }],
            free_total(final(self).spec_free()) == heap_size,
    {
        let mut free: Vec<FreeBlock> = Vec::new();
        free.push(FreeBlock { addr: heap_start, size: heap_size });
        self.free = free;
        self.start = heap_start;
        self.size = heap_size;
        self.initialized = true;
        proof {
            assert(self.free@.drop_first() =~= Seq::<FreeBlock>::empty());
            assert(free_total(Seq::<FreeBlock>::empty()) == 0);
            assert(free_total(self.free@) == self.free@[0].size + free_total(
                self.free@.drop_first(),
            ));
        }
    }

    /// First-fit allocation: scan the free list front to back, take the
    /// first block that can host `size` bytes at alignment `align`, and
    /// return the aligned address inside it. The chosen block is replaced
    /// by its split pieces; absence means no block fits.
    pub fn allocate_first_fit(&mut self, size: u64, align: u64) -> (r: Option<u64>)
        requires
            old(self).wf(),
            old(self).spec_initialized(),
            size > 0,
            align > 0,
        ensures
            final(self).wf(),
            final(self).spec_initialized(),
            final(self).spec_start() == old(self).spec_start(),
            final(self).spec_size() == old(self).spec_size(),
            match first_fit(old(self).spec_free(), size as int, align as int) {
                Some(i) => r == Some(
                    spec_align_up(old(self).spec_free()[i].addr as int, align as int) as u64,
                ) && final(self).spec_free() =~= after_alloc(
                    old(self).spec_free(),
                    i,
                    size as int,
                    align as int,
                ),
                None => r is None && final(self).spec_free() == old(self).spec_free(),
            },
            r matches Some(a) ==> forall|k: int|
                0 <= k < final(self).spec_free().len() ==> blocks_disjoint(
                    #[trigger] final(self).spec_free()[k],
                    (FreeBlock { addr: a, size }),
                ),
    {
        let ghost blocks0 = self.free@;
        let mut i: usize = 0;
        while i < self.free.len()
            invariant
                *self == *old(self),
                i <= blocks0.len(),
                forall|k: int| 0 <= k < i ==> !block_fits(blocks0[k], size as int, align as int),
            decreases blocks0.len() - i,
        {
            let b = self.free[i];
            let rest = b.addr % align;
            let pad: u64 = if rest == 0 {
                0
            } else {
                align - rest
            };
            let fits: bool = b.size >= pad && b.size - pad >= size;
            proof {
                assert(spec_align_up(b.addr as int, align as int) == b.addr + pad);
                assert(fits == block_fits(b, size as int, align as int));
                if fits {
                    lemma_first_fit_found(blocks0, size as int, align as int, i as int);
                }
            }
            if fits {
                proof {
                    assert(b == old(self).spec_free()[i as int]);
                    assert(b.addr + b.size <= old(self).spec_start() + old(self).spec_size());
                }
                let aligned: u64 = b.addr + pad;
                let tail_addr: u64 = aligned + size;
                let rem: u64 = (b.addr + b.size) - tail_addr;
                let mut replaced: Vec<FreeBlock> = Vec::new();
                let mut k: usize = 0;
                while k < i
                    invariant
                        self.free@ == blocks0,
                        k <= i <= blocks0.len(),
                        replaced@ =~= blocks0.take(k as int),
                    decreases i - k,
                {
                    let bb = self.free[k];
                    replaced.push(bb);
                    k = k + 1;
                }
                if pad > 0 {
                    replaced.push(FreeBlock { addr: b.addr, size: pad });
                }
                if rem >= MIN_BLOCK_SIZE {
                    replaced.push(FreeBlock { addr: tail_addr, size: rem });
                }
                proof {
                    assert(replaced@ =~= blocks0.take(i as int) + split_pieces(
                        blocks0[i as int],
                        size as int,
                        align as int,
                    ));
                }
                let mut k2: usize = i + 1;
                while k2 < self.free.len()
                    invariant
                        self.free@ == blocks0,
                        i < blocks0.len(),
                        i + 1 <= k2 <= blocks0.len(),
                        replaced@ =~= blocks0.take(i as int) + split_pieces(
                            blocks0[i as int],
                            size as int,
                            align as int,
                        ) + blocks0.subrange(i as int + 1, k2 as int),
                    decreases blocks0.len() - k2,
                {
                    let bb = self.free[k2];
                    replaced.push(bb);
                    proof {
                        assert(blocks0.subrange(i as int + 1, k2 as int + 1) =~= blocks0.subrange(
                            i as int + 1,
                            k2 as int,
                        ).push(blocks0[k2 as int]));
                    }
                    k2 = k2 + 1;
                }
                proof {
                    assert(blocks0.subrange(i as int + 1, blocks0.len() as int) =~= blocks0.skip(
                        i as int + 1,
                    ));
                    lemma_after_alloc_wf(
                        blocks0,
                        i as int,
                        size as int,
                        align as int,
                        old(self).spec_start(),
                        old(self).spec_size(),
                    );
                }
                self.free = replaced;
                return Some(aligned);
            }
            i = i + 1;
        }
        proof {
            lemma_first_fit_none(blocks0, size as int, align as int);
        }
        None
    }

    /// Release a run of bytes back to the heap: the block is reinserted at
    /// the front of the free list, unmerged. The caller returns exactly
    /// what it was handed: a non-empty run inside the heap region that is
    /// not free already — releasing twice is a caller defect.
    pub fn deallocate(&mut self, addr: u64, size: u64)
        requires
            old(self).wf(),
            old(self).spec_initialized(),
            size > 0,
            old(self).spec_start() <= addr,
            addr + size <= old(self).spec_start() + old(self).spec_size(),
            forall|k: int|
                0 <= k < old(self).spec_free().len() ==> blocks_disjoint(
                    #[trigger] old(self).spec_free()[k],
                    (FreeBlock { addr, size }),
                ),
        ensures
            final(self).wf(),
            final(self).spec_initialized(),
            final(self).spec_start() == old(self).spec_start(),
            final(self).spec_size() == old(self).spec_size(),
            final(self).spec_free() =~= seq![FreeBlock { addr, size }] + old(self).spec_free(),
            free_total(final(self).spec_free()) == free_total(old(self).spec_free()) + size,
    {
        let mut updated: Vec<FreeBlock> = Vec::new();
        updated.push(FreeBlock { addr, size });
        let mut k: usize = 0;
        let ghost blocks0 = self.free@;
        while k < self.free.len()
            invariant
                self.free@ == blocks0,
                k <= blocks0.len(),
                updated@ =~= seq![FreeBlock { addr, size }] + blocks0.take(k as int),
            decreases blocks0.len() - k,
        {
            let bb = self.free[k];
            updated.push(bb);
            k = k + 1;
        }
        proof {
            assert(blocks0.take(blocks0.len() as int) =~= blocks0);
        }
        self.free = updated;
        proof {
            lemma_free_total_push_front(FreeBlock { addr, size }, blocks0);
            assert forall|k1: int, k2: int|
                0 <= k1 < self.free@.len() && 0 <= k2 < self.free@.len() && k1
                    != k2 implies blocks_disjoint(
                #[trigger] self.free@[k1],
                #[trigger] self.free@[k2],
            ) by {
                assert(self.free@[0] == (FreeBlock { addr, size }));
                if k1 > 0 && k2 > 0 {
                    assert(self.free@[k1] == blocks0[k1 - 1]);
                    assert(self.free@[k2] == blocks0[k2 - 1]);
                    assert(blocks_disjoint(blocks0[k1 - 1], blocks0[k2 - 1]));
                } else if k1 == 0 {
                    assert(self.free@[k2] == blocks0[k2 - 1]);
                    assert(old(self).spec_free()[k2 - 1] == blocks0[k2 - 1]);
                    assert(blocks_disjoint(blocks0[k2 - 1], (FreeBlock { addr, size })));
                } else {
                    assert(self.free@[k1] == blocks0[k1 - 1]);
                    assert(old(self).spec_free()[k1 - 1] == blocks0[k1 - 1]);
                    assert(blocks_disjoint(blocks0[k1 - 1], (FreeBlock { addr, size })));
                }
            }
        }
    }
}

/// A virtual address is a page base of the heap region.
pub open spec fn heap_page(p: u64) -> bool {
    p % 4096 == 0 && HEAP_START <= p < HEAP_START + HEAP_SIZE
}

/// Every heap address below `bound` is mapped, writable, and free of huge
/// entries on its walk.
#[verifier::opaque]
pub open spec fn heap_mapped_below(m: OffsetPageTable, bound: u64) -> bool {
    forall|va: u64|
        #![trigger m.spec_translate(va)]
        HEAP_START <= va < bound ==> m.spec_translate(va) is Some && m.mapped_writable(va)
            && !m.huge_on_path(va)
}

/// Every heap page base at or above `bound` is still unmapped and free of
/// huge entries on its walk.
#[verifier::opaque]
pub open spec fn heap_clear_from(m: OffsetPageTable, bound: u64) -> bool {
    forall|p: u64|
        #![trigger m.spec_translate(p)]
        heap_page(p) && p >= bound ==> m.spec_translate(p) is None && !m.huge_on_path(p)
}

proof fn lemma_heap_clear_at(m: OffsetPageTable, bound: u64, p: u64)
    requires
        heap_clear_from(m, bound),
        heap_page(p),
        p >= bound,
    ensures
        m.spec_translate(p) is None,
        !m.huge_on_path(p),
{
    reveal(heap_clear_from);
}

proof fn lemma_heap_mapped_below_unfold(m: OffsetPageTable, bound: u64, va: u64)
    requires
        heap_mapped_below(m, bound),
        HEAP_START <= va < bound,
    ensures
        m.spec_translate(va) is Some,
        m.mapped_writable(va),
        !m.huge_on_path(va),
{
    reveal(heap_mapped_below);
}

/// Every mapped heap page base below `bound` holds a frame of its own:
/// one the allocator issued at or after position `lo`, and no two pages
/// share one — spec-wise, a frame is claimed by at most one mapping.
#[verifier::opaque]
pub open spec fn heap_frames_distinct(
    m: OffsetPageTable,
    fa: BootInfoFrameAllocator,
    lo: int,
    bound: u64,
) -> bool {
    &&& (forall|p: u64|
        #![trigger m.spec_translate(p)]
        heap_page(p) && p < bound ==> (exists|k: int|
            lo <= k < fa.spec_next() && m.spec_translate(p) == Some(
                #[trigger] fa.usable_frames()[k],
            )))
    &&& (forall|p1: u64, p2: u64|
        #![trigger m.spec_translate(p1), m.spec_translate(p2)]
        heap_page(p1) && heap_page(p2) && p1 != p2 && p1 < bound && p2 < bound
            ==> m.spec_translate(p1) != m.spec_translate(p2))
}

/// All heap pages walk through the same level-4, level-3 and level-2
/// slots: the region is 256 contiguous pages whose page numbers agree on
/// everything above the level-1 index.
proof fn lemma_heap_pages_share_upper_slots(p: u64)
    requires
        heap_page(p),
    ensures
        spec_p4_index(p) == spec_p4_index(HEAP_START),
        spec_p3_index(p) == spec_p3_index(HEAP_START),
        spec_p2_index(p) == spec_p2_index(HEAP_START),
{
    let j = (p - HEAP_START) / 4096;
    assert(p / 4096 == HEAP_START / 4096 + j && 0 <= j < 256) by (nonlinear_arith)
        requires
            p % 4096 == 0,
            HEAP_START <= p < HEAP_START + HEAP_SIZE,
            j == (p - HEAP_START) / 4096,
    ;
    let base = HEAP_START / 4096;
    assert((base + j) / 512 == base / 512 && (base + j) / 0x4_0000 == base / 0x4_0000 && (base + j)
        / 0x800_0000 == base / 0x800_0000) by (nonlinear_arith)
        requires
            0 <= j < 256,
            base == HEAP_START / 4096,
    ;
}

/// Once the first heap page translates, no heap page's walk lacks a
/// table: the pages share their three upper slots.
proof fn lemma_no_tables_missing(m: OffsetPageTable, p: u64)
    requires
        m.spec_translate(HEAP_START) is Some,
        heap_page(p),
    ensures
        m.missing_tables(p) == 0,
{
    lemma_heap_pages_share_upper_slots(p);
    assert(m.l4e(p) == m.l4e(HEAP_START));
    assert(m.l3e(p) == m.l3e(HEAP_START));
    assert(m.l2e(p) == m.l2e(HEAP_START));
}

/// One step of heap initialization keeps the frames distinct: the new
/// page got the frame the allocator issued this round, which is not any
/// frame issued earlier.
proof fn lemma_init_heap_frames_step(
    mb: OffsetPageTable,
    mn: OffsetPageTable,
    fa_head: BootInfoFrameAllocator,
    fa_end: BootInfoFrameAllocator,
    lo: int,
    page: u64,
    frame: u64,
    i: u64,
)
    requires
        0 <= i < 256,
        page == HEAP_START + 4096 * i,
        page % 4096 == 0,
        fa_head.wf(),
        0 <= lo <= fa_head.spec_next(),
        fa_head.spec_next() < fa_head.usable_frames().len(),
        frame == fa_head.usable_frames()[fa_head.spec_next() as int],
        fa_end.spec_regions() == fa_head.spec_regions(),
        fa_end.spec_next() > fa_head.spec_next(),
        heap_frames_distinct(mb, fa_head, lo, page),
        heap_mapped_below(mb, page),
        forall|va: u64|
            same_slot(va, page) ==> mn.spec_translate(va) == Some((frame + va % 4096) as u64),
        forall|va: u64|
            !same_slot(va, page) && !mb.huge_on_path(va) ==> mn.spec_translate(va)
                == mb.spec_translate(va),
    ensures
        heap_frames_distinct(mn, fa_end, lo, (HEAP_START + 4096 * (i + 1)) as u64),
{
    reveal(heap_frames_distinct);
    lemma_usable_frames_distinct(fa_head);
    let uf = fa_head.usable_frames();
    assert(fa_end.usable_frames() == uf);
    let n0 = fa_head.spec_next() as int;
    let bound = (HEAP_START + 4096 * (i + 1)) as u64;
    assert forall|p: u64| heap_page(p) && p < bound implies (exists|k: int|
        lo <= k < fa_end.spec_next() && mn.spec_translate(p) == Some(
            #[trigger] fa_end.usable_frames()[k],
        )) by {
        if p < page {
            lemma_nearby_pages_not_same_slot(p, page);
            lemma_heap_mapped_below_unfold(mb, page, p);
            assert(mn.spec_translate(p) == mb.spec_translate(p));
            let k = choose|k: int|
                lo <= k < fa_head.spec_next() && mb.spec_translate(p) == Some(
                    #[trigger] uf[k],
                );
            assert(lo <= k < fa_end.spec_next());
            assert(mn.spec_translate(p) == Some(fa_end.usable_frames()[k]));
        } else {
            assert(p == page) by (nonlinear_arith)
                requires
                    p % 4096 == 0,
                    page % 4096 == 0,
                    page <= p < page + 4096,
            ;
            assert(same_slot(p, page));
            assert(mn.spec_translate(page) == Some((frame + page % 4096) as u64));
            assert(mn.spec_translate(p) == Some(fa_end.usable_frames()[n0]));
            assert(lo <= n0 < fa_end.spec_next());
        }
    }
    assert forall|p1: u64, p2: u64|
        heap_page(p1) && heap_page(p2) && p1 != p2 && p1 < bound && p2
            < bound implies mn.spec_translate(p1) != mn.spec_translate(p2) by {
        lemma_heap_frames_pair(mb, mn, fa_head, lo, page, frame, p1, p2);
    }
}

/// Two distinct heap pages below the new bound keep distinct frames: the
/// page mapped this round got a frame the allocator had not issued before.
proof fn lemma_heap_frames_pair(
    mb: OffsetPageTable,
    mn: OffsetPageTable,
    fa_head: BootInfoFrameAllocator,
    lo: int,
    page: u64,
    frame: u64,
    p1: u64,
    p2: u64,
)
    requires
        page % 4096 == 0,
        heap_page(page),
        fa_head.wf(),
        0 <= lo <= fa_head.spec_next(),
        fa_head.spec_next() < fa_head.usable_frames().len(),
        frame == fa_head.usable_frames()[fa_head.spec_next() as int],
        heap_frames_distinct(mb, fa_head, lo, page),
        heap_mapped_below(mb, page),
        forall|va: u64|
            same_slot(va, page) ==> mn.spec_translate(va) == Some((frame + va % 4096) as u64),
        forall|va: u64|
            !same_slot(va, page) && !mb.huge_on_path(va) ==> mn.spec_translate(va)
                == mb.spec_translate(va),
        heap_page(p1),
        heap_page(p2),
        p1 != p2,
        p1 < page + 4096,
        p2 < page + 4096,
    ensures
        mn.spec_translate(p1) != mn.spec_translate(p2),
{
    reveal(heap_frames_distinct);
    lemma_usable_frames_distinct(fa_head);
    let uf = fa_head.usable_frames();
    let n0 = fa_head.spec_next() as int;
    if p1 < page && p2 < page {
        lemma_nearby_pages_not_same_slot(p1, page);
        lemma_nearby_pages_not_same_slot(p2, page);
        lemma_heap_mapped_below_unfold(mb, page, p1);
        lemma_heap_mapped_below_unfold(mb, page, p2);
        assert(mn.spec_translate(p1) == mb.spec_translate(p1));
        assert(mn.spec_translate(p2) == mb.spec_translate(p2));
        assert(mb.spec_translate(p1) != mb.spec_translate(p2));
    } else if p1 < page {
        assert(p2 == page) by (nonlinear_arith)
            requires
                p2 % 4096 == 0,
                page % 4096 == 0,
                page <= p2 < page + 4096,
        ;
        lemma_heap_page_vs_new(mb, mn, fa_head, lo, page, frame, p1);
    } else {
        assert(p1 == page) by (nonlinear_arith)
            requires
                p1 % 4096 == 0,
                page % 4096 == 0,
                page <= p1 < page + 4096,
        ;
        lemma_heap_page_vs_new(mb, mn, fa_head, lo, page, frame, p2);
    }
}

/// An earlier heap page's frame differs from the one issued this round:
/// the allocator's usable-frame sequence never repeats.
proof fn lemma_heap_page_vs_new(
    mb: OffsetPageTable,
    mn: OffsetPageTable,
    fa_head: BootInfoFrameAllocator,
    lo: int,
    page: u64,
    frame: u64,
    p: u64,
)
    requires
        page % 4096 == 0,
        heap_page(page),
        fa_head.wf(),
        0 <= lo <= fa_head.spec_next(),
        fa_head.spec_next() < fa_head.usable_frames().len(),
        frame == fa_head.usable_frames()[fa_head.spec_next() as int],
        heap_frames_distinct(mb, fa_head, lo, page),
        heap_mapped_below(mb, page),
        forall|va: u64|
            same_slot(va, page) ==> mn.spec_translate(va) == Some((frame + va % 4096) as u64),
        forall|va: u64|
            !same_slot(va, page) && !mb.huge_on_path(va) ==> mn.spec_translate(va)
                == mb.spec_translate(va),
        heap_page(p),
        p < page,
    ensures
        mn.spec_translate(p) != mn.spec_translate(page),
{
    reveal(heap_frames_distinct);
    lemma_usable_frames_distinct(fa_head);
    let uf = fa_head.usable_frames();
    let n0 = fa_head.spec_next() as int;
    lemma_nearby_pages_not_same_slot(p, page);
    lemma_heap_mapped_below_unfold(mb, page, p);
    assert(mn.spec_translate(p) == mb.spec_translate(p));
    let k = choose|k: int|
        lo <= k < fa_head.spec_next() && mb.spec_translate(p) == Some(#[trigger] uf[k]);
    assert(same_slot(page, page));
    assert(mn.spec_translate(page) == Some((frame + page % 4096) as u64));
    assert(mn.spec_translate(page) == Some(frame));
    assert(uf[k] != uf[n0]);
}

/// Map every page of the fixed heap region present and writable, each to
/// a frame of its own freshly claimed from the frame allocator, then seed
/// the heap allocator with the whole region as its single free block. Any
/// mapping failure aborts initialization with the allocator untouched; on
/// an address space where no heap page is mapped or blocked by a huge
/// entry, it succeeds exactly when the allocator still holds the 256 page
/// frames plus the interior tables the first walk lacks, and fails with
/// frame-allocation exhaustion otherwise.
#[verifier::rlimit(100)]
#[verifier::spinoff_prover]
pub fn init_heap(
    mapper: &mut OffsetPageTable,
    frame_allocator: &mut BootInfoFrameAllocator,
    allocator: &mut HeapAllocator,
) -> (r: Result<(), MapToError>)
    requires
        old(mapper).wf(),
        old(frame_allocator).wf(),
        old(frame_allocator).spec_next() + 1024 <= usize::MAX,
        !old(allocator).spec_initialized(),
    ensures
        final(mapper).wf(),
        final(mapper).phys_offset == old(mapper).phys_offset,
        final(frame_allocator).wf(),
        final(frame_allocator).spec_regions() == old(frame_allocator).spec_regions(),
        match r {
            Ok(()) => {
                &&& forall|va: u64|
                    HEAP_START <= va < HEAP_START + HEAP_SIZE ==> final(mapper).spec_translate(
                        va,
                    ) is Some
                &&& forall|va: u64|
                    HEAP_START <= va < HEAP_START + HEAP_SIZE ==> final(mapper).mapped_writable(va)
                &&& forall|p1: u64, p2: u64|
                    #![trigger final(mapper).spec_translate(p1), final(mapper).spec_translate(p2)]
                    heap_page(p1) && heap_page(p2) && p1 != p2 ==> final(mapper).spec_translate(p1)
                        != final(mapper).spec_translate(p2)
                &&& forall|p: u64|
                    #![trigger final(mapper).spec_translate(p)]
                    heap_page(p) ==> (exists|k: int|
                        old(frame_allocator).spec_next() <= k < final(frame_allocator).spec_next()
                            && final(mapper).spec_translate(p) == Some(
                            #[trigger] final(frame_allocator).usable_frames()[k],
                        ))
                &&& final(frame_allocator).spec_next() == old(frame_allocator).spec_next() + 256
                    + old(mapper).missing_tables(HEAP_START)
                &&& old(frame_allocator).frames_remaining() >= 256 + old(mapper).missing_tables(
                    HEAP_START,
                )
                &&& final(allocator).spec_initialized()
                &&& final(allocator).spec_start() == HEAP_START
                &&& final(allocator).spec_size() == HEAP_SIZE
                &&& final(allocator).spec_free() =~= seq![
                    (FreeBlock { addr: HEAP_START, size: HEAP_SIZE }),
                ]
                &&& free_total(final(allocator).spec_free()) == HEAP_SIZE
            },
            Err(_) => *final(allocator) == *old(allocator),
        },
        (forall|p: u64|
            heap_page(p) ==> old(mapper).spec_translate(p) is None && !old(mapper).huge_on_path(
                p,
            )) ==> {
            &&& (r is Ok <==> old(frame_allocator).frames_remaining() >= 256 + old(
                mapper,
            ).missing_tables(HEAP_START))
            &&& (r matches Err(e) ==> e == MapToError::FrameAllocationFailed)
        },
{
    let ghost clear = forall|p: u64|
        heap_page(p) ==> old(mapper).spec_translate(p) is None && !old(mapper).huge_on_path(p);
    let ghost missing0 = old(mapper).missing_tables(HEAP_START);
    let ghost lo = old(frame_allocator).spec_next() as int;
    proof {
        reveal(heap_mapped_below);
        reveal(heap_clear_from);
        reveal(heap_frames_distinct);
        assert(heap_mapped_below(*mapper, HEAP_START));
        assert(heap_frames_distinct(*mapper, *frame_allocator, lo, HEAP_START));
        if clear {
            assert(heap_clear_from(*mapper, HEAP_START));
        }
        assert(0 <= missing0 <= 3);
    }
    let mut i: u64 = 0;
    while i < 256
        invariant
            i <= 256,
            mapper.wf(),
            mapper.phys_offset == old(mapper).phys_offset,
            frame_allocator.wf(),
            frame_allocator.spec_regions() == old(frame_allocator).spec_regions(),
            frame_allocator.spec_next() == old(frame_allocator).spec_next() + i + (if i > 0 {
                missing0
            } else {
                0int
            }),
            i > 0 ==> old(frame_allocator).frames_remaining() >= i + missing0,
            i == 0 ==> *mapper == *old(mapper),
            *allocator == *old(allocator),
            heap_mapped_below(*mapper, (HEAP_START + 4096 * i) as u64),
            heap_frames_distinct(
                *mapper,
                *frame_allocator,
                lo,
                (HEAP_START + 4096 * i) as u64,
            ),
            clear ==> heap_clear_from(*mapper, (HEAP_START + 4096 * i) as u64),
            0 <= missing0 <= 3,
        decreases 256 - i,
    {
        let page: u64 = HEAP_START + 4096 * i;
        proof {
            assert(page % 4096 == 0) by (nonlinear_arith)
                requires
                    page == HEAP_START + 4096 * i,
            ;
            assert(heap_page(page));
            lemma_usable_frames_aligned(*frame_allocator);
            if i > 0 {
                lemma_heap_mapped_below_unfold(
                    *mapper,
                    (HEAP_START + 4096 * i) as u64,
                    HEAP_START,
                );
                lemma_no_tables_missing(*mapper, page);
            }
        }
        let ghost fa_head = *frame_allocator;
        let frame = match frame_allocator.allocate_frame() {
            Some(f) => f,
            None => {
                proof {
                    if clear && old(frame_allocator).frames_remaining() >= 256 + missing0 {
                        assert(fa_head.frames_remaining() >= 1);
                        assert(false);
                    }
                }
                return Err(MapToError::FrameAllocationFailed);
            },
        };
        let ghost fa1 = *frame_allocator;
        let ghost mb = *mapper;
        let flags = PageFlags { present: true, writable: true };
        match create_mapping(page, frame, flags, mapper, frame_allocator) {
            Ok(()) => {},
            Err(e) => {
                proof {
                    if clear {
                        lemma_heap_clear_at(mb, page, page);
                        assert(mb.spec_translate(page) is None);
                        assert(!mb.huge_on_path(page));
                        assert(e == MapToError::FrameAllocationFailed);
                        if old(frame_allocator).frames_remaining() >= 256 + missing0 {
                            if i > 0 {
                                assert(mb.missing_tables(page) == 0);
                            } else {
                                assert(mb.missing_tables(page) == missing0);
                                assert(fa1.frames_remaining() >= 255 + missing0);
                            }
                            assert(false);
                        }
                    }
                }
                return Err(e);
            },
        }
        proof {
            if i == 0 {
                assert(page == HEAP_START);
                assert(mb.missing_tables(page) == missing0);
            } else {
                assert(mb.missing_tables(page) == 0);
            }
            assert(fa_head.frames_remaining() >= 1);
            if i == 0 {
                assert(frame_allocator.spec_next() == fa1.spec_next() + missing0);
                assert(missing0 == 0 || fa1.frames_remaining() >= missing0);
                assert(old(frame_allocator).frames_remaining() >= 1 + missing0);
            } else {
                assert(old(frame_allocator).frames_remaining() >= i + 1 + missing0);
            }
            lemma_init_heap_step(mb, *mapper, page, frame, i);
            lemma_init_heap_frames_step(
                mb,
                *mapper,
                fa_head,
                *frame_allocator,
                lo,
                page,
                frame,
                i,
            );
            if clear {
                lemma_heap_clear_at(mb, page, page);
                lemma_init_heap_future(mb, *mapper, page, i);
            }
        }
        i = i + 1;
    }
    proof {
        assert forall|va: u64| HEAP_START <= va < HEAP_START + HEAP_SIZE implies mapper.spec_translate(
            va,
        ) is Some && mapper.mapped_writable(va) by {
            lemma_heap_mapped_below_unfold(*mapper, (HEAP_START + HEAP_SIZE) as u64, va);
        }
        reveal(heap_frames_distinct);
        assert forall|p: u64| heap_page(p) implies p < (HEAP_START + 4096 * 256) as u64 by {}
    }
    allocator.init(HEAP_START, HEAP_SIZE);
    Ok(())
}

/// One step of heap initialization: after the page at `HEAP_START + 4096*i`
/// is mapped writable to `frame`, every heap address below the next page
/// base is mapped writable with no huge entry on its walk.
proof fn lemma_init_heap_step(mb: OffsetPageTable, mn: OffsetPageTable, page: u64, frame: u64, i: u64)
    requires
        0 <= i < 256,
        page == HEAP_START + 4096 * i,
        page % 4096 == 0,
        !mb.huge_on_path(page),
        heap_mapped_below(mb, page),
        forall|va: u64| mn.huge_on_path(va) == mb.huge_on_path(va),
        forall|va: u64|
            same_slot(va, page) ==> mn.spec_translate(va) == Some((frame + va % 4096) as u64),
        forall|va: u64|
            same_slot(va, page) ==> mn.l1e(va) == (PageTableEntry {
                present: true,
                writable: true,
                huge: false,
                addr: frame,
            }),
        forall|va: u64|
            !same_slot(va, page) && !mb.huge_on_path(va) ==> mn.spec_translate(va)
                == mb.spec_translate(va),
        forall|va: u64|
            !same_slot(va, page) && !mb.huge_on_path(va) ==> mn.mapped_writable(va)
                == mb.mapped_writable(va),
    ensures
        heap_mapped_below(mn, (HEAP_START + 4096 * (i + 1)) as u64),
{
    reveal(heap_mapped_below);
    assert forall|va: u64| HEAP_START <= va < HEAP_START + 4096 * (i + 1) implies mn.spec_translate(
        va,
    ) is Some && mn.mapped_writable(va) && !mn.huge_on_path(va) by {
        if va >= page {
            lemma_same_page_same_slot(page, va);
            assert(mb.l4e(va) == mb.l4e(page));
            assert(mb.l3e(va) == mb.l3e(page));
            assert(mb.l2e(va) == mb.l2e(page));
            assert(!mb.huge_on_path(va));
            assert(mn.spec_translate(va) == Some((frame + va % 4096) as u64));
            assert(mn.l1e(va).writable);
        } else {
            let j = (va - HEAP_START) / 4096;
            let pv = (HEAP_START + 4096 * j) as u64;
            assert(pv % 4096 == 0 && pv <= va < pv + 4096 && pv < page) by (nonlinear_arith)
                requires
                    j == (va - HEAP_START) / 4096,
                    pv == HEAP_START + 4096 * j,
                    page == HEAP_START + 4096 * i,
                    HEAP_START % 4096 == 0,
                    HEAP_START <= va < page,
            ;
            lemma_same_page_same_slot(pv, va);
            lemma_nearby_pages_not_same_slot(pv, page);
            assert(!same_slot(va, page));
            assert(mb.spec_translate(va) is Some && mb.mapped_writable(va) && !mb.huge_on_path(
                va,
            ));
        }
    }
}

/// One step of heap initialization leaves every heap page above the next
/// page base untouched: still unmapped and still free of huge entries.
proof fn lemma_init_heap_future(mb: OffsetPageTable, mn: OffsetPageTable, page: u64, i: u64)
    requires
        0 <= i < 256,
        page == HEAP_START + 4096 * i,
        page % 4096 == 0,
        heap_clear_from(mb, page),
        forall|va: u64| mn.huge_on_path(va) == mb.huge_on_path(va),
        forall|va: u64|
            !same_slot(va, page) && !mb.huge_on_path(va) ==> mn.spec_translate(va)
                == mb.spec_translate(va),
    ensures
        heap_clear_from(mn, (HEAP_START + 4096 * (i + 1)) as u64),
{
    reveal(heap_clear_from);
    assert forall|p: u64| heap_page(p) && p >= HEAP_START + 4096 * (i + 1) implies mn.spec_translate(
        p,
    ) is None && !mn.huge_on_path(p) by {
        lemma_nearby_pages_not_same_slot(page, p);
        assert(!mb.huge_on_path(p));
        assert(mn.spec_translate(p) == mb.spec_translate(p));
    }
}

proof fn lemma_first_fit_found(blocks: Seq<FreeBlock>, size: int, align: int, i: int)
    requires
        0 <= i < blocks.len(),
        block_fits(blocks[i], size, align),
        forall|k: int| 0 <= k < i ==> !block_fits(blocks[k], size, align),
    ensures
        first_fit(blocks, size, align) == Some(i),
    decreases i,
{
    if i == 0 {
    } else {
        assert forall|k: int| 0 <= k < i - 1 implies !block_fits(
            blocks.drop_first()[k],
            size,
            align,
        ) by {
            assert(blocks.drop_first()[k] == blocks[k + 1]);
        }
        assert(blocks.drop_first()[i - 1] == blocks[i]);
        lemma_first_fit_found(blocks.drop_first(), size, align, i - 1);
    }
}

proof fn lemma_first_fit_none(blocks: Seq<FreeBlock>, size: int, align: int)
    requires
        forall|k: int| 0 <= k < blocks.len() ==> !block_fits(blocks[k], size, align),
    ensures
        first_fit(blocks, size, align) is None,
    decreases blocks.len(),
{
    if blocks.len() > 0 {
        assert forall|k: int| 0 <= k < blocks.drop_first().len() implies !block_fits(
            blocks.drop_first()[k],
            size,
            align,
        ) by {
            assert(blocks.drop_first()[k] == blocks[k + 1]);
        }
        lemma_first_fit_none(blocks.drop_first(), size, align);
    }
}

proof fn lemma_free_total_push_front(b: FreeBlock, blocks: Seq<FreeBlock>)
    ensures
        free_total(seq![b] + blocks) == b.size + free_total(blocks),
{
    assert((seq![b] + blocks).drop_first() =~= blocks);
    assert((seq![b] + blocks)[0] == b);
}

proof fn lemma_free_total_concat(a: Seq<FreeBlock>, b: Seq<FreeBlock>)
    ensures
        free_total(a + b) == free_total(a) + free_total(b),
    decreases a.len(),
{
    if a.len() == 0 {
        assert(a + b =~= b);
    } else {
        lemma_free_total_concat(a.drop_first(), b);
        assert((a + b).drop_first() =~= a.drop_first() + b);
        assert((a + b)[0] == a[0]);
    }
}

proof fn lemma_free_total_single(b: FreeBlock)
    ensures
        free_total(seq![b]) == b.size,
{
    let s = seq![b];
    assert(s.drop_first() =~= Seq::<FreeBlock>::empty());
    assert(free_total(Seq::<FreeBlock>::empty()) == 0);
    assert(free_total(s) == s[0].size + free_total(s.drop_first()));
}

proof fn lemma_first_fit_in_range(blocks: Seq<FreeBlock>, size: int, align: int, i: int)
    requires
        first_fit(blocks, size, align) == Some(i),
    ensures
        0 <= i < blocks.len(),
        block_fits(blocks[i], size, align),
    decreases blocks.len(),
{
    if blocks.len() > 0 && !block_fits(blocks[0], size, align) {
        lemma_first_fit_in_range(blocks.drop_first(), size, align, i - 1);
        assert(blocks.drop_first()[i - 1] == blocks[i]);
    }
}

proof fn lemma_after_alloc_free_total(blocks: Seq<FreeBlock>, size: int, align: int, i: int)
    requires
        size > 0,
        align > 0,
        0 <= i < blocks.len(),
        block_fits(blocks[i], size, align),
        blocks[i].addr + blocks[i].size <= u64::MAX,
        ({
            let b = blocks[i];
            let rem = b.addr + b.size - (spec_align_up(b.addr as int, align) + size);
            rem == 0 || rem >= MIN_BLOCK_SIZE
        }),
    ensures
        free_total(after_alloc(blocks, i, size, align)) == free_total(blocks) - size,
{
    let b = blocks[i];
    let aligned = spec_align_up(b.addr as int, align);
    let front = aligned - b.addr;
    let rem = b.addr + b.size - (aligned + size);
    assert(0 <= front < align) by (nonlinear_arith)
        requires
            align > 0,
            front == spec_align_up(b.addr as int, align) - b.addr,
    ;
    let pieces = split_pieces(b, size, align);
    let lead_block = FreeBlock { addr: b.addr, size: front as u64 };
    let tail_block = FreeBlock { addr: (aligned + size) as u64, size: rem as u64 };
    assert(free_total(pieces) == b.size - size) by {
        if front > 0 {
            if rem >= MIN_BLOCK_SIZE {
                assert(pieces =~= seq![lead_block] + seq![tail_block]);
                lemma_free_total_push_front(lead_block, seq![tail_block]);
                lemma_free_total_single(tail_block);
            } else {
                assert(pieces =~= seq![lead_block]);
                lemma_free_total_single(lead_block);
            }
        } else {
            if rem >= MIN_BLOCK_SIZE {
                assert(pieces =~= seq![tail_block]);
                lemma_free_total_single(tail_block);
            } else {
                assert(pieces =~= Seq::<FreeBlock>::empty());
                assert(free_total(Seq::<FreeBlock>::empty()) == 0);
            }
        }
    }
    lemma_free_total_concat(blocks.take(i) + pieces, blocks.skip(i + 1));
    lemma_free_total_concat(blocks.take(i), pieces);
    assert(blocks =~= blocks.take(i) + seq![b] + blocks.skip(i + 1));
    lemma_free_total_concat(blocks.take(i) + seq![b], blocks.skip(i + 1));
    lemma_free_total_concat(blocks.take(i), seq![b]);
    lemma_free_total_single(b);
}

proof fn lemma_after_alloc_wf(blocks: Seq<FreeBlock>, i: int, size: int, align: int, start: int, total: int)
    requires
        free_list_wf(blocks, start, total),
        0 <= start,
        start + total <= u64::MAX,
        0 <= i < blocks.len(),
        size > 0,
        align > 0,
        block_fits(blocks[i], size, align),
    ensures
        free_list_wf(after_alloc(blocks, i, size, align), start, total),
        forall|k: int|
            0 <= k < after_alloc(blocks, i, size, align).len() ==> blocks_disjoint(
                #[trigger] after_alloc(blocks, i, size, align)[k],
                (FreeBlock {
                    addr: spec_align_up(blocks[i].addr as int, align) as u64,
                    size: size as u64,
                }),
            ),
{
    let b = blocks[i];
    let aligned = spec_align_up(b.addr as int, align);
    let front = aligned - b.addr;
    let rem = b.addr + b.size - (aligned + size);
    assert(0 <= front < align) by (nonlinear_arith)
        requires
            align > 0,
            front == spec_align_up(b.addr as int, align) - b.addr,
    ;
    let run = FreeBlock { addr: aligned as u64, size: size as u64 };
    let pieces = split_pieces(b, size, align);
    let na = after_alloc(blocks, i, size, align);
    assert(aligned + size <= b.addr + b.size);
    assert(b.addr + b.size <= start + total);
    assert forall|t: int| 0 <= t < pieces.len() implies {
        let pc = #[trigger] pieces[t];
        &&& b.addr <= pc.addr
        &&& pc.addr + pc.size <= b.addr + b.size
        &&& pc.size > 0
        &&& blocks_disjoint(pc, run)
    } by {
        let lead_block = FreeBlock { addr: b.addr, size: front as u64 };
        let tail_block = FreeBlock { addr: (aligned + size) as u64, size: rem as u64 };
        if front > 0 {
            if rem >= MIN_BLOCK_SIZE {
                assert(pieces =~= seq![lead_block] + seq![tail_block]);
            } else {
                assert(pieces =~= seq![lead_block]);
            }
        } else {
            if rem >= MIN_BLOCK_SIZE {
                assert(pieces =~= seq![tail_block]);
            } else {
                assert(pieces =~= Seq::<FreeBlock>::empty());
            }
        }
    }
    assert(blocks.take(i).len() == i);
    assert(blocks.skip(i + 1).len() == blocks.len() - i - 1);
    assert forall|j: int| 0 <= j < na.len() implies {
        let nb = #[trigger] na[j];
        &&& start <= nb.addr
        &&& nb.addr + nb.size <= start + total
        &&& nb.size > 0
        &&& blocks_disjoint(nb, run)
        &&& (j < i || j >= i + pieces.len() ==> {
            let orig = if j < i {
                blocks[j]
            } else {
                blocks[j - pieces.len() + 1]
            };
            nb == orig && orig != b && blocks_disjoint(orig, b)
        })
        &&& (i <= j < i + pieces.len() ==> b.addr <= nb.addr && nb.addr + nb.size <= b.addr
            + b.size)
    } by {
        if j < i {
            assert(na[j] == blocks[j]);
            assert(blocks_disjoint(blocks[j], blocks[i]));
        } else if j < i + pieces.len() {
            assert(na[j] == pieces[j - i]);
        } else {
            assert(na[j] == blocks[j - pieces.len() + 1]);
            assert(i < j - pieces.len() + 1 < blocks.len());
            assert(blocks_disjoint(blocks[j - pieces.len() + 1], blocks[i]));
        }
    }
    assert forall|k1: int, k2: int|
        0 <= k1 < na.len() && 0 <= k2 < na.len() && k1 != k2 implies blocks_disjoint(
        #[trigger] na[k1],
        #[trigger] na[k2],
    ) by {
        let in_pieces1 = i <= k1 < i + pieces.len();
        let in_pieces2 = i <= k2 < i + pieces.len();
        if !in_pieces1 && !in_pieces2 {
            let o1 = if k1 < i {
                k1
            } else {
                k1 - pieces.len() + 1
            };
            let o2 = if k2 < i {
                k2
            } else {
                k2 - pieces.len() + 1
            };
            assert(o1 != o2);
            assert(blocks_disjoint(blocks[o1], blocks[o2]));
        } else if in_pieces1 && in_pieces2 {
            let lead_block = FreeBlock { addr: b.addr, size: front as u64 };
            let tail_block = FreeBlock { addr: (aligned + size) as u64, size: rem as u64 };
            assert(pieces.len() == 2);
            assert(pieces =~= seq![lead_block] + seq![tail_block]);
            assert(front > 0 && rem >= MIN_BLOCK_SIZE);
            assert(blocks_disjoint(lead_block, tail_block));
        }
    }
}

/// Releasing exactly what an allocation returned restores the total free
/// space: allocation takes `size` bytes out of the chosen block (leading
/// padding and a keepable tail stay free), and deallocation puts `size`
/// bytes back. The one carve-out is a tail remainder too small to host a
/// block header, which the allocation consumes whole.
pub proof fn lemma_alloc_dealloc_preserves_free_total(
    blocks: Seq<FreeBlock>,
    size: u64,
    align: u64,
    i: int,
    addr: u64,
)
    requires
        size > 0,
        align > 0,
        first_fit(blocks, size as int, align as int) == Some(i),
        blocks[i].addr + blocks[i].size <= u64::MAX,
        ({
            let b = blocks[i];
            let rem = b.addr + b.size - (spec_align_up(b.addr as int, align as int) + size);
            rem == 0 || rem >= MIN_BLOCK_SIZE
        }),
    ensures
        free_total(
            seq![FreeBlock { addr, size }] + after_alloc(blocks, i, size as int, align as int),
        ) == free_total(blocks),
{
    lemma_first_fit_in_range(blocks, size as int, align as int, i);
    lemma_after_alloc_free_total(blocks, size as int, align as int, i);
    lemma_free_total_push_front(
        FreeBlock { addr, size },
        after_alloc(blocks, i, size as int, align as int),
    );
}

/// First fit reuses a freed block: when the block at the front of the free
/// list (where deallocation puts a released block) fits the request
/// exactly at its own address, the next allocation of that size returns
/// precisely that block's address.
pub proof fn lemma_first_fit_reuses_freed_block(blocks: Seq<FreeBlock>, size: u64, align: u64)
    requires
        blocks.len() > 0,
        size > 0,
        align > 0,
        blocks[0].size == size,
        blocks[0].addr % align == 0,
    ensures
        first_fit(blocks, size as int, align as int) == Some(0int),
        spec_align_up(blocks[0].addr as int, align as int) == blocks[0].addr,
{
    assert(block_fits(blocks[0], size as int, align as int));
}

} // verus!
