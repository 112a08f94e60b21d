//! The four-level page-table model: translation of virtual addresses and
//! installation of new mappings.
//!
//! Tables are held as plain data, one vector of 512-entry tables per
//! level; an interior entry names the child table by its index in the next
//! level's vector, a level-1 entry holds the mapped frame's base address.
//! New tables are only ever appended and each table has at most one
//! parent, so installing a mapping for one page never disturbs the
//! translation of any other address.

#![verifier::loop_isolation(false)]

use vstd::prelude::*;
use crate::memory::frame_allocator::BootInfoFrameAllocator;

verus! {

/// The flags of a page-table entry that this kernel uses.
#[derive(Clone, Copy, PartialEq, Eq, Structural, Debug)]
pub struct PageFlags {
    pub present: bool,
    pub writable: bool,
}

/// One page-table entry: either absent, or pointing at a child table or a
/// final frame, with its flags. A huge entry maps a large page directly
/// from an interior level; this kernel never creates one.
#[derive(Clone, Copy, PartialEq, Eq, Structural, Debug)]
pub struct PageTableEntry {
    pub present: bool,
    pub writable: bool,
    pub huge: bool,
    pub addr: u64,
}

/// One 512-entry page table.
#[derive(Debug)]
pub struct PageTable {
    pub entries: Vec<PageTableEntry>,
}

/// The number of the page holding `addr`: its address divided by the page
/// size. The four table indexes are all functions of this number.
pub open spec fn spec_page_number(addr: u64) -> u64 {
    addr / 4096
}

/// Index of `addr` into the level-4 table.
pub fn p4_index(addr: u64) -> (r: usize)
    ensures
        r == spec_p4_index(addr),
{
    (((addr / 4096) / 0x800_0000) % 512) as usize
}

/// Index of `addr` into its level-3 table.
pub fn p3_index(addr: u64) -> (r: usize)
    ensures
        r == spec_p3_index(addr),
{
    (((addr / 4096) / 0x4_0000) % 512) as usize
}

/// Index of `addr` into its level-2 table.
pub fn p2_index(addr: u64) -> (r: usize)
    ensures
        r == spec_p2_index(addr),
{
    (((addr / 4096) / 512) % 512) as usize
}

/// Index of `addr` into its level-1 table.
pub fn p1_index(addr: u64) -> (r: usize)
    ensures
        r == spec_p1_index(addr),
{
    ((addr / 4096) % 512) as usize
}

/// Index of `addr` into the level-4 table.
pub open spec fn spec_p4_index(addr: u64) -> int {
    ((spec_page_number(addr) / 0x800_0000) % 512) as int
}

/// Index of `addr` into its level-3 table.
pub open spec fn spec_p3_index(addr: u64) -> int {
    ((spec_page_number(addr) / 0x4_0000) % 512) as int
}

/// Index of `addr` into its level-2 table.
pub open spec fn spec_p2_index(addr: u64) -> int {
    ((spec_page_number(addr) / 512) % 512) as int
}

/// Index of `addr` into its level-1 table.
pub open spec fn spec_p1_index(addr: u64) -> int {
    (spec_page_number(addr) % 512) as int
}

/// Two addresses walk through exactly the same four table slots.
pub open spec fn same_slot(a: u64, b: u64) -> bool {
    &&& spec_p4_index(a) == spec_p4_index(b)
    &&& spec_p3_index(a) == spec_p3_index(b)
    &&& spec_p2_index(a) == spec_p2_index(b)
    &&& spec_p1_index(a) == spec_p1_index(b)
}

/// Every address inside an aligned page walks through the page's own four
/// table slots, and its page offset is its distance from the page base.
pub proof fn lemma_same_page_same_slot(page: u64, va: u64)
    requires
        page % 4096 == 0,
        page <= va < page + 4096,
    ensures
        same_slot(va, page),
        va % 4096 == va - page,
{
    let q = page / 4096;
    assert(page == 4096 * q) by (nonlinear_arith)
        requires
            page % 4096 == 0,
            q == page / 4096,
    ;
    assert(va / 4096 == q && va % 4096 == va - 4096 * q) by (nonlinear_arith)
        requires
            4096 * q <= va < 4096 * q + 4096,
    ;
}

/// Why installing a mapping failed: the frame allocator ran dry while the
/// walk needed a new table, an interior entry on the path is a huge page,
/// or the page already has a mapping (to the carried frame base).
#[derive(Clone, Copy, PartialEq, Eq, Structural, Debug)]
pub enum MapToError {
    FrameAllocationFailed,
    ParentEntryHugePage,
    PageAlreadyMapped(u64),
}

/// The active address space seen through the physical-memory offset: the
/// level-4 root and the tables of the three lower levels.
pub struct OffsetPageTable {
    pub l4: PageTable,
    pub l3s: Vec<PageTable>,
    pub l2s: Vec<PageTable>,
    pub l1s: Vec<PageTable>,
    pub phys_offset: u64,
}

/// A table has exactly 512 entries.
pub open spec fn table_wf(t: PageTable) -> bool {
    t.entries@.len() == 512
}

/// Present, non-huge entries of an interior table point below `bound`,
/// the length of the next level's table vector.
pub open spec fn entries_point_below(t: PageTable, bound: int) -> bool {
    forall|e: int|
        0 <= e < t.entries@.len() ==> {
            let en = #[trigger] t.entries@[e];
            en.present && !en.huge ==> en.addr < bound
        }
}

/// Present level-1 entries hold frame-aligned physical addresses, so a
/// translated address never leaves the 64-bit space.
pub open spec fn leaf_frames_aligned(t: PageTable) -> bool {
    forall|e: int|
        0 <= e < t.entries@.len() ==> ((#[trigger] t.entries@[e]).present ==> t.entries@[e].addr
            % 4096 == 0)
}

/// A table none of whose entries is present.
pub open spec fn all_absent(t: PageTable) -> bool {
    forall|e: int| 0 <= e < t.entries@.len() ==> !(#[trigger] t.entries@[e]).present
}

/// No child table of a level is named by two parent entries.
pub open spec fn parents_unique(ts: Seq<PageTable>) -> bool {
    forall|t1: int, e1: int, t2: int, e2: int|
        #![trigger ts[t1].entries@[e1], ts[t2].entries@[e2]]
        0 <= t1 < ts.len() && 0 <= e1 < 512 && 0 <= t2 < ts.len() && 0 <= e2 < 512 && (t1, e1)
            != (t2, e2) ==> {
            let en1 = ts[t1].entries@[e1];
            let en2 = ts[t2].entries@[e2];
            !(en1.present && !en1.huge && en2.present && !en2.huge && en1.addr == en2.addr)
        }
}

impl OffsetPageTable {
    /// The level-4 table of the address space.
    pub open spec fn spec_l4(self) -> PageTable {
        self.l4
    }

    /// The level-3 tables, indexed by level-4 entries.
    pub open spec fn spec_l3s(self) -> Seq<PageTable> {
        self.l3s@
    }

    /// The level-2 tables, indexed by level-3 entries.
    pub open spec fn spec_l2s(self) -> Seq<PageTable> {
        self.l2s@
    }

    /// The level-1 tables, indexed by level-2 entries.
    pub open spec fn spec_l1s(self) -> Seq<PageTable> {
        self.l1s@
    }

    /// The boot-supplied physical-memory offset the address space was
    /// created with.
    pub open spec fn spec_phys_offset(self) -> u64 {
        self.phys_offset
    }

    /// Well-formedness: all tables have 512 entries, interior entries
    /// point into the next level, and no table has two parents.
    pub open spec fn wf(self) -> bool {
        &&& table_wf(self.l4)
        &&& forall|t: int| 0 <= t < self.l3s@.len() ==> table_wf(#[trigger] self.l3s@[t])
        &&& forall|t: int| 0 <= t < self.l2s@.len() ==> table_wf(#[trigger] self.l2s@[t])
        &&& forall|t: int| 0 <= t < self.l1s@.len() ==> table_wf(#[trigger] self.l1s@[t])
        &&& entries_point_below(self.l4, self.l3s@.len() as int)
        &&& forall|t: int|
            0 <= t < self.l3s@.len() ==> entries_point_below(
                #[trigger] self.l3s@[t],
                self.l2s@.len() as int,
            )
        &&& forall|t: int|
            0 <= t < self.l2s@.len() ==> entries_point_below(
                #[trigger] self.l2s@[t],
                self.l1s@.len() as int,
            )
        &&& parents_unique(self.l3s@)
        &&& parents_unique(self.l2s@)
        &&& self.l4_children_unique()
        &&& self.l3_children_unique()
        &&& self.l2_children_unique()
        &&& forall|t: int|
            0 <= t < self.l1s@.len() ==> leaf_frames_aligned(#[trigger] self.l1s@[t])
    }

    /// No two level-4 entries name the same level-3 table.
    pub open spec fn l4_children_unique(self) -> bool {
        forall|e1: int, e2: int|
            #![trigger self.l4.entries@[e1], self.l4.entries@[e2]]
            0 <= e1 < 512 && 0 <= e2 < 512 && e1 != e2 ==> {
                let en1 = self.l4.entries@[e1];
                let en2 = self.l4.entries@[e2];
                !(en1.present && !en1.huge && en2.present && !en2.huge && en1.addr == en2.addr)
            }
    }

    /// No two level-3 entries (over all level-3 tables) name the same
    /// level-2 table.
    pub open spec fn l3_children_unique(self) -> bool {
        parents_unique(self.l3s@)
    }

    /// No two level-2 entries (over all level-2 tables) name the same
    /// level-1 table.
    pub open spec fn l2_children_unique(self) -> bool {
        parents_unique(self.l2s@)
    }

    /// The level-4 entry on `addr`'s walk.
    pub open spec fn l4e(self, addr: u64) -> PageTableEntry {
        self.l4.entries@[spec_p4_index(addr)]
    }

    /// The level-3 entry on `addr`'s walk; meaningful once the level-4
    /// entry is a present table pointer.
    pub open spec fn l3e(self, addr: u64) -> PageTableEntry {
        self.l3s@[self.l4e(addr).addr as int].entries@[spec_p3_index(addr)]
    }

    /// The level-2 entry on `addr`'s walk.
    pub open spec fn l2e(self, addr: u64) -> PageTableEntry {
        self.l2s@[self.l3e(addr).addr as int].entries@[spec_p2_index(addr)]
    }

    /// The level-1 entry on `addr`'s walk: the mapping itself.
    pub open spec fn l1e(self, addr: u64) -> PageTableEntry {
        self.l1s@[self.l2e(addr).addr as int].entries@[spec_p1_index(addr)]
    }

    /// The translation the hardware would perform for `addr`: walk the
    /// four levels; absence at any level is absence of a mapping. A huge
    /// entry on the path leaves the walk undefined here; `huge_on_path`
    /// rules it out.
    pub open spec fn spec_translate(self, addr: u64) -> Option<u64> {
        if !self.l4e(addr).present {
            None
        } else if !self.l3e(addr).present {
            None
        } else if !self.l2e(addr).present {
            None
        } else if !self.l1e(addr).present {
            None
        } else {
            Some((self.l1e(addr).addr + addr % 4096) as u64)
        }
    }

    /// Whether the walk for `addr` meets a huge entry at an interior
    /// level, the one condition the translation code treats as fatal.
    pub open spec fn huge_on_path(self, addr: u64) -> bool {
        self.l4e(addr).present && (self.l4e(addr).huge || (self.l3e(addr).present && (self.l3e(
            addr,
        ).huge || (self.l2e(addr).present && self.l2e(addr).huge))))
    }

    /// Whether `addr` is mapped and its mapping allows writes: the walk
    /// succeeds and the level-1 entry carries the writable flag.
    pub open spec fn mapped_writable(self, addr: u64) -> bool {
        self.spec_translate(addr) is Some && self.l1e(addr).writable
    }

    /// How many interior tables `addr`'s walk still lacks before a level-1
    /// entry can be installed; each one costs a frame.
    pub open spec fn missing_tables(self, addr: u64) -> int {
        if !self.l4e(addr).present {
            3
        } else if !self.l3e(addr).present {
            2
        } else if !self.l2e(addr).present {
            1
        } else {
            0
        }
    }

    /// Walk the four levels for `addr` and return the physical address it
    /// maps to: the mapped frame's base plus the page offset; absence at
    /// any level is absence of a mapping. A huge entry on the path is a
    /// fatal condition, excluded by the precondition.
    pub fn translate_addr(&self, addr: u64) -> (r: Option<u64>)
        requires
            self.wf(),
            !self.huge_on_path(addr),
        ensures
            r == self.spec_translate(addr),
    {
        let i4 = p4_index(addr);
        let e4 = self.l4.entries[i4];
        if !e4.present {
            return None;
        }
        proof {
            assert(e4.addr < self.l3s@.len());
            assert(self.l3s@.len() == self.l3s.len());
        }
        let i3 = p3_index(addr);
        let e3 = self.l3s[e4.addr as usize].entries[i3];
        if !e3.present {
            return None;
        }
        proof {
            assert(e3.addr < self.l2s@.len());
            assert(self.l2s@.len() == self.l2s.len());
        }
        let i2 = p2_index(addr);
        let e2 = self.l2s[e3.addr as usize].entries[i2];
        if !e2.present {
            return None;
        }
        proof {
            assert(e2.addr < self.l1s@.len());
            assert(self.l1s@.len() == self.l1s.len());
        }
        let i1 = p1_index(addr);
        let e1 = self.l1s[e2.addr as usize].entries[i1];
        if !e1.present {
            return None;
        }
        proof {
            assert(e1.addr % 4096 == 0);
            assert(e1.addr + addr % 4096 <= u64::MAX) by (nonlinear_arith)
                requires
                    e1.addr % 4096 == 0,
            ;
        }
        Some(e1.addr + addr % 4096)
    }

    /// A fresh address space under the given physical-memory offset: an
    /// empty level-4 root and no lower tables, so nothing translates.
    pub fn new(physical_memory_offset: u64) -> (r: Self)
        ensures
            r.wf(),
            r.spec_phys_offset() == physical_memory_offset,
            forall|addr: u64| r.spec_translate(addr) is None,
            forall|addr: u64| !r.huge_on_path(addr),
    {
        let l4 = empty_table();
        OffsetPageTable {
            l4,
            l3s: Vec::new(),
            l2s: Vec::new(),
            l1s: Vec::new(),
            phys_offset: physical_memory_offset,
        }
    }

    /// Walk one step from the level-4 root for `page`, creating the
    /// level-3 table (at the cost of one frame) if the entry is absent.
    /// Returns the level-3 table's index. No translation changes here: a
    /// table created on the way down is still empty.
    fn descend_l4(&mut self, page: u64, frame_allocator: &mut BootInfoFrameAllocator) -> (r:
        Result<usize, MapToError>)
        requires
            old(self).wf(),
            old(frame_allocator).wf(),
            old(frame_allocator).spec_next() < usize::MAX,
        ensures
            final(self).wf(),
            final(self).phys_offset == old(self).phys_offset,
            final(self).l2s@ == old(self).l2s@,
            final(self).l1s@ == old(self).l1s@,
            old(self).l3s@.len() <= final(self).l3s@.len(),
            final(frame_allocator).wf(),
            final(frame_allocator).spec_regions() == old(frame_allocator).spec_regions(),
            old(frame_allocator).spec_next() <= final(frame_allocator).spec_next() <= old(
                frame_allocator,
            ).spec_next() + 1,
            forall|va: u64| final(self).huge_on_path(va) == old(self).huge_on_path(va),
            forall|va: u64|
                !old(self).huge_on_path(va) ==> final(self).spec_translate(va) == old(
                    self,
                ).spec_translate(va),
            forall|va: u64|
                !old(self).huge_on_path(va) ==> final(self).mapped_writable(va) == old(
                    self,
                ).mapped_writable(va),
            match r {
                Ok(ci) => {
                    &&& final(self).l4e(page).present
                    &&& !final(self).l4e(page).huge
                    &&& final(self).l4e(page).addr == ci as u64
                    &&& ci < final(self).l3s@.len()
                    &&& if old(self).l4e(page).present {
                        &&& *final(self) == *old(self)
                        &&& *final(frame_allocator) == *old(frame_allocator)
                    } else {
                        &&& all_absent(final(self).l3s@[ci as int])
                        &&& ci == old(self).l3s@.len()
                        &&& final(self).l3s@ == old(self).l3s@.push(final(self).l3s@[ci as int])
                        &&& final(self).l4.entries@ == old(self).l4.entries@.update(
                            spec_p4_index(page),
                            final(self).l4e(page),
                        )
                        &&& final(frame_allocator).spec_next() == old(frame_allocator).spec_next()
                            + 1
                        &&& old(frame_allocator).frames_remaining() >= 1
                    }
                },
                Err(e) => {
                    &&& *final(self) == *old(self)
                    &&& (e == MapToError::ParentEntryHugePage || e
                        == MapToError::FrameAllocationFailed)
                    &&& (e == MapToError::ParentEntryHugePage) <==> (old(self).l4e(page).present
                        && old(self).l4e(page).huge)
                    &&& (e == MapToError::FrameAllocationFailed ==> {
                        &&& !old(self).l4e(page).present
                        &&& old(frame_allocator).frames_remaining() <= 0
                        &&& final(frame_allocator).spec_next() == old(frame_allocator).spec_next()
                            + 1
                    })
                    &&& (e == MapToError::ParentEntryHugePage ==> *final(frame_allocator) == *old(
                        frame_allocator,
                    ))
                },
            },
    {
        let i4 = p4_index(page);
        let e4 = self.l4.entries[i4];
        if e4.present {
            if e4.huge {
                return Err(MapToError::ParentEntryHugePage);
            }
            proof {
                assert(e4.addr < self.l3s@.len());
                assert(self.l3s@.len() == self.l3s.len());
            }
            return Ok(e4.addr as usize);
        }
        // The claimed frame backs the new level-3 table.
        if frame_allocator.allocate_frame().is_none() {
            return Err(MapToError::FrameAllocationFailed);
        }
        let fresh = empty_table();
        let ci = self.l3s.len();
        self.l3s.push(fresh);
        self.l4.entries[i4] = PageTableEntry {
            present: true,
            writable: true,
            huge: false,
            addr: ci as u64,
        };
        proof {
            let pre = *old(self);
            let post = *self;
            assert(post.l3s@[ci as int] == fresh);
            assert(post.l4.entries@ == pre.l4.entries@.update(spec_p4_index(page), post.l4e(page)));
            assert forall|va: u64| post.huge_on_path(va) == pre.huge_on_path(va) by {
                lemma_descend_preserves_walk(pre, post, page, ci as int, va);
            }
            assert forall|va: u64| !pre.huge_on_path(va) implies post.spec_translate(va)
                == pre.spec_translate(va) by {
                lemma_descend_preserves_walk(pre, post, page, ci as int, va);
            }
            assert forall|va: u64| !pre.huge_on_path(va) implies post.mapped_writable(va)
                == pre.mapped_writable(va) by {
                lemma_descend_preserves_walk(pre, post, page, ci as int, va);
            }
            assert(post.wf()) by {
                lemma_descend_l4_wf(pre, post, page, ci as int);
            }
        }
        Ok(ci)
    }

    /// Walk one step through the level-3 table at index `pi` for `page`,
    /// creating the level-2 table (at the cost of one frame) if the entry
    /// is absent. Returns the level-2 table's index.
    fn descend_l3(&mut self, pi: usize, page: u64, frame_allocator: &mut BootInfoFrameAllocator) -> (r:
        Result<usize, MapToError>)
        requires
            old(self).wf(),
            pi < old(self).l3s@.len(),
            old(frame_allocator).wf(),
            old(frame_allocator).spec_next() < usize::MAX,
        ensures
            final(self).wf(),
            final(self).phys_offset == old(self).phys_offset,
            final(self).l4 == old(self).l4,
            final(self).l3s@.len() == old(self).l3s@.len(),
            final(self).l1s@ == old(self).l1s@,
            old(self).l2s@.len() <= final(self).l2s@.len(),
            final(frame_allocator).wf(),
            final(frame_allocator).spec_regions() == old(frame_allocator).spec_regions(),
            old(frame_allocator).spec_next() <= final(frame_allocator).spec_next() <= old(
                frame_allocator,
            ).spec_next() + 1,
            forall|va: u64| final(self).huge_on_path(va) == old(self).huge_on_path(va),
            forall|va: u64|
                !old(self).huge_on_path(va) ==> final(self).spec_translate(va) == old(
                    self,
                ).spec_translate(va),
            forall|va: u64|
                !old(self).huge_on_path(va) ==> final(self).mapped_writable(va) == old(
                    self,
                ).mapped_writable(va),
            match r {
                Ok(ci) => {
                    let e_old = old(self).l3s@[pi as int].entries@[spec_p3_index(page)];
                    let e_new = final(self).l3s@[pi as int].entries@[spec_p3_index(page)];
                    &&& e_new.present
                    &&& !e_new.huge
                    &&& e_new.addr == ci as u64
                    &&& ci < final(self).l2s@.len()
                    &&& if e_old.present {
                        &&& *final(self) == *old(self)
                        &&& *final(frame_allocator) == *old(frame_allocator)
                    } else {
                        &&& all_absent(final(self).l2s@[ci as int])
                        &&& ci == old(self).l2s@.len()
                        &&& final(self).l2s@ == old(self).l2s@.push(final(self).l2s@[ci as int])
                        &&& final(self).l3s@ == old(self).l3s@.update(
                            pi as int,
                            final(self).l3s@[pi as int],
                        )
                        &&& final(self).l3s@[pi as int].entries@ == old(self).l3s@[pi as int].entries@.update(
                            spec_p3_index(page),
                            e_new,
                        )
                        &&& final(frame_allocator).spec_next() == old(frame_allocator).spec_next()
                            + 1
                        &&& old(frame_allocator).frames_remaining() >= 1
                    }
                },
                Err(e) => {
                    let e_old = old(self).l3s@[pi as int].entries@[spec_p3_index(page)];
                    &&& *final(self) == *old(self)
                    &&& (e == MapToError::ParentEntryHugePage || e
                        == MapToError::FrameAllocationFailed)
                    &&& (e == MapToError::ParentEntryHugePage) <==> (e_old.present && e_old.huge)
                    &&& (e == MapToError::FrameAllocationFailed ==> {
                        &&& !e_old.present
                        &&& old(frame_allocator).frames_remaining() <= 0
                        &&& final(frame_allocator).spec_next() == old(frame_allocator).spec_next()
                            + 1
                    })
                    &&& (e == MapToError::ParentEntryHugePage ==> *final(frame_allocator) == *old(
                        frame_allocator,
                    ))
                },
            },
    {
        let i3 = p3_index(page);
        let e3 = self.l3s[pi].entries[i3];
        if e3.present {
            if e3.huge {
                return Err(MapToError::ParentEntryHugePage);
            }
            proof {
                assert(e3.addr < self.l2s@.len());
                assert(self.l2s@.len() == self.l2s.len());
            }
            return Ok(e3.addr as usize);
        }
        // The claimed frame backs the new level-2 table.
        if frame_allocator.allocate_frame().is_none() {
            return Err(MapToError::FrameAllocationFailed);
        }
        let fresh = empty_table();
        let ci = self.l2s.len();
        self.l2s.push(fresh);
        self.l3s[pi].entries[i3] = PageTableEntry {
            present: true,
            writable: true,
            huge: false,
            addr: ci as u64,
        };
        proof {
            let pre = *old(self);
            let post = *self;
            assert(post.l2s@[ci as int] == fresh);
            assert(post.l3s@ == pre.l3s@.update(pi as int, post.l3s@[pi as int]));
            assert(post.l3s@[pi as int].entries@ == pre.l3s@[pi as int].entries@.update(
                i3 as int,
                post.l3s@[pi as int].entries@[i3 as int],
            ));
            assert forall|va: u64| post.huge_on_path(va) == pre.huge_on_path(va) by {
                lemma_descend_l3_preserves_walk(pre, post, pi as int, i3 as int, ci as int, va);
            }
            assert forall|va: u64| !pre.huge_on_path(va) implies post.spec_translate(va)
                == pre.spec_translate(va) by {
                lemma_descend_l3_preserves_walk(pre, post, pi as int, i3 as int, ci as int, va);
            }
            assert forall|va: u64| !pre.huge_on_path(va) implies post.mapped_writable(va)
                == pre.mapped_writable(va) by {
                lemma_descend_l3_preserves_walk(pre, post, pi as int, i3 as int, ci as int, va);
            }
            assert(post.wf()) by {
                lemma_descend_l3_wf(pre, post, pi as int, i3 as int, ci as int);
            }
        }
        Ok(ci)
    }

    /// Walk one step through the level-2 table at index `pi` for `page`,
    /// creating the level-1 table (at the cost of one frame) if the entry
    /// is absent. Returns the level-1 table's index.
    fn descend_l2(&mut self, pi: usize, page: u64, frame_allocator: &mut BootInfoFrameAllocator) -> (r:
        Result<usize, MapToError>)
        requires
            old(self).wf(),
            pi < old(self).l2s@.len(),
            old(frame_allocator).wf(),
            old(frame_allocator).spec_next() < usize::MAX,
        ensures
            final(self).wf(),
            final(self).phys_offset == old(self).phys_offset,
            final(self).l4 == old(self).l4,
            final(self).l3s@ == old(self).l3s@,
            final(self).l2s@.len() == old(self).l2s@.len(),
            old(self).l1s@.len() <= final(self).l1s@.len(),
            final(frame_allocator).wf(),
            final(frame_allocator).spec_regions() == old(frame_allocator).spec_regions(),
            old(frame_allocator).spec_next() <= final(frame_allocator).spec_next() <= old(
                frame_allocator,
            ).spec_next() + 1,
            forall|va: u64| final(self).huge_on_path(va) == old(self).huge_on_path(va),
            forall|va: u64|
                !old(self).huge_on_path(va) ==> final(self).spec_translate(va) == old(
                    self,
                ).spec_translate(va),
            forall|va: u64|
                !old(self).huge_on_path(va) ==> final(self).mapped_writable(va) == old(
                    self,
                ).mapped_writable(va),
            match r {
                Ok(ci) => {
                    let e_old = old(self).l2s@[pi as int].entries@[spec_p2_index(page)];
                    let e_new = final(self).l2s@[pi as int].entries@[spec_p2_index(page)];
                    &&& e_new.present
                    &&& !e_new.huge
                    &&& e_new.addr == ci as u64
                    &&& ci < final(self).l1s@.len()
                    &&& if e_old.present {
                        &&& *final(self) == *old(self)
                        &&& *final(frame_allocator) == *old(frame_allocator)
                    } else {
                        &&& all_absent(final(self).l1s@[ci as int])
                        &&& ci == old(self).l1s@.len()
                        &&& final(self).l1s@ == old(self).l1s@.push(final(self).l1s@[ci as int])
                        &&& final(self).l2s@ == old(self).l2s@.update(
                            pi as int,
                            final(self).l2s@[pi as int],
                        )
                        &&& final(self).l2s@[pi as int].entries@ == old(self).l2s@[pi as int].entries@.update(
                            spec_p2_index(page),
                            e_new,
                        )
                        &&& final(frame_allocator).spec_next() == old(frame_allocator).spec_next()
                            + 1
                        &&& old(frame_allocator).frames_remaining() >= 1
                    }
                },
                Err(e) => {
                    let e_old = old(self).l2s@[pi as int].entries@[spec_p2_index(page)];
                    &&& *final(self) == *old(self)
                    &&& (e == MapToError::ParentEntryHugePage || e
                        == MapToError::FrameAllocationFailed)
                    &&& (e == MapToError::ParentEntryHugePage) <==> (e_old.present && e_old.huge)
                    &&& (e == MapToError::FrameAllocationFailed ==> {
                        &&& !e_old.present
                        &&& old(frame_allocator).frames_remaining() <= 0
                        &&& final(frame_allocator).spec_next() == old(frame_allocator).spec_next()
                            + 1
                    })
                    &&& (e == MapToError::ParentEntryHugePage ==> *final(frame_allocator) == *old(
                        frame_allocator,
                    ))
                },
            },
    {
        let i2 = p2_index(page);
        let e2 = self.l2s[pi].entries[i2];
        if e2.present {
            if e2.huge {
                return Err(MapToError::ParentEntryHugePage);
            }
            proof {
                assert(e2.addr < self.l1s@.len());
                assert(self.l1s@.len() == self.l1s.len());
            }
            return Ok(e2.addr as usize);
        }
        // The claimed frame backs the new level-1 table.
        if frame_allocator.allocate_frame().is_none() {
            return Err(MapToError::FrameAllocationFailed);
        }
        let fresh = empty_table();
        let ci = self.l1s.len();
        self.l1s.push(fresh);
        self.l2s[pi].entries[i2] = PageTableEntry {
            present: true,
            writable: true,
            huge: false,
            addr: ci as u64,
        };
        proof {
            let pre = *old(self);
            let post = *self;
            assert(post.l1s@[ci as int] == fresh);
            assert(post.l2s@ == pre.l2s@.update(pi as int, post.l2s@[pi as int]));
            assert(post.l2s@[pi as int].entries@ == pre.l2s@[pi as int].entries@.update(
                i2 as int,
                post.l2s@[pi as int].entries@[i2 as int],
            ));
            assert forall|va: u64| post.huge_on_path(va) == pre.huge_on_path(va) by {
                lemma_descend_l2_preserves_walk(pre, post, pi as int, i2 as int, ci as int, va);
            }
            assert forall|va: u64| !pre.huge_on_path(va) implies post.spec_translate(va)
                == pre.spec_translate(va) by {
                lemma_descend_l2_preserves_walk(pre, post, pi as int, i2 as int, ci as int, va);
            }
            assert forall|va: u64| !pre.huge_on_path(va) implies post.mapped_writable(va)
                == pre.mapped_writable(va) by {
                lemma_descend_l2_preserves_walk(pre, post, pi as int, i2 as int, ci as int, va);
            }
            assert(post.wf()) by {
                lemma_descend_l2_wf(pre, post, pi as int, i2 as int, ci as int);
            }
        }
        Ok(ci)
    }
}

/// After an absent level-3 entry is pointed at a fresh, empty level-2
/// table, no address translates differently and no path gains or loses a
/// huge entry.
proof fn lemma_descend_l3_preserves_walk(
    pre: OffsetPageTable,
    post: OffsetPageTable,
    pi: int,
    i3: int,
    ci: int,
    va: u64,
)
    requires
        pre.wf(),
        0 <= pi < pre.l3s@.len(),
        0 <= i3 < 512,
        !pre.l3s@[pi].entries@[i3].present,
        ci == pre.l2s@.len(),
        0 <= ci <= u64::MAX,
        post.l4 == pre.l4,
        post.l3s@ == pre.l3s@.update(pi, post.l3s@[pi]),
        post.l3s@[pi].entries@ == pre.l3s@[pi].entries@.update(
            i3,
            PageTableEntry { present: true, writable: true, huge: false, addr: ci as u64 },
        ),
        post.l2s@ == pre.l2s@.push(post.l2s@[ci]),
        all_absent(post.l2s@[ci]),
        table_wf(post.l2s@[ci]),
        post.l1s@ == pre.l1s@,
    ensures
        post.huge_on_path(va) == pre.huge_on_path(va),
        !pre.huge_on_path(va) ==> post.spec_translate(va) == pre.spec_translate(va),
        !pre.huge_on_path(va) ==> post.mapped_writable(va) == pre.mapped_writable(va),
{
    assert(post.l4e(va) == pre.l4e(va));
    let e4 = pre.l4e(va);
    if e4.present && !e4.huge {
        assert(e4.addr < pre.l3s@.len());
        if e4.addr == pi {
            if spec_p3_index(va) == i3 {
                assert(!pre.l3e(va).present);
                assert(post.l3e(va).addr == ci);
                assert(!post.l2e(va).present);
            } else {
                assert(post.l3e(va) == pre.l3e(va));
                let e3 = pre.l3e(va);
                if e3.present && !e3.huge {
                    assert(e3.addr < pre.l2s@.len());
                    assert(post.l2s@[e3.addr as int] == pre.l2s@[e3.addr as int]);
                    assert(post.l2e(va) == pre.l2e(va));
                    assert(post.l1e(va) == pre.l1e(va));
                }
            }
        } else {
            assert(post.l3s@[e4.addr as int] == pre.l3s@[e4.addr as int]);
            assert(post.l3e(va) == pre.l3e(va));
            let e3 = pre.l3e(va);
            if e3.present && !e3.huge {
                assert(e3.addr < pre.l2s@.len());
                assert(post.l2s@[e3.addr as int] == pre.l2s@[e3.addr as int]);
                assert(post.l2e(va) == pre.l2e(va));
                assert(post.l1e(va) == pre.l1e(va));
            }
        }
    }
}

/// Pointing an absent level-3 entry at a freshly pushed, empty level-2
/// table preserves every well-formedness clause.
proof fn lemma_descend_l3_wf(pre: OffsetPageTable, post: OffsetPageTable, pi: int, i3: int, ci: int)
    requires
        pre.wf(),
        0 <= pi < pre.l3s@.len(),
        0 <= i3 < 512,
        !pre.l3s@[pi].entries@[i3].present,
        ci == pre.l2s@.len(),
        0 <= ci <= u64::MAX,
        post.l4 == pre.l4,
        post.l3s@ == pre.l3s@.update(pi, post.l3s@[pi]),
        post.l3s@[pi].entries@ == pre.l3s@[pi].entries@.update(
            i3,
            PageTableEntry { present: true, writable: true, huge: false, addr: ci as u64 },
        ),
        post.l2s@ == pre.l2s@.push(post.l2s@[ci]),
        all_absent(post.l2s@[ci]),
        table_wf(post.l2s@[ci]),
        post.l1s@ == pre.l1s@,
    ensures
        post.wf(),
{
    assert forall|t: int| 0 <= t < post.l3s@.len() implies table_wf(#[trigger] post.l3s@[t]) by {
        if t != pi {
            assert(post.l3s@[t] == pre.l3s@[t]);
        }
    }
    assert forall|t: int| 0 <= t < post.l2s@.len() implies table_wf(#[trigger] post.l2s@[t]) by {
        if t < ci {
            assert(post.l2s@[t] == pre.l2s@[t]);
        }
    }
    assert forall|t: int| 0 <= t < post.l3s@.len() implies entries_point_below(
        #[trigger] post.l3s@[t],
        post.l2s@.len() as int,
    ) by {
        if t != pi {
            assert(post.l3s@[t] == pre.l3s@[t]);
            assert(entries_point_below(pre.l3s@[t], pre.l2s@.len() as int));
        } else {
            assert forall|e: int| 0 <= e < post.l3s@[t].entries@.len() implies {
                let en = #[trigger] post.l3s@[t].entries@[e];
                en.present && !en.huge ==> en.addr < post.l2s@.len()
            } by {
                if e != i3 {
                    assert(post.l3s@[t].entries@[e] == pre.l3s@[t].entries@[e]);
                }
            }
        }
    }
    assert forall|t: int| 0 <= t < post.l2s@.len() implies entries_point_below(
        #[trigger] post.l2s@[t],
        post.l1s@.len() as int,
    ) by {
        if t < ci {
            assert(post.l2s@[t] == pre.l2s@[t]);
        }
    }
    assert(parents_unique(post.l3s@)) by {
        assert forall|t1: int, e1: int, t2: int, e2: int|
            #![trigger post.l3s@[t1].entries@[e1], post.l3s@[t2].entries@[e2]]
            0 <= t1 < post.l3s@.len() && 0 <= e1 < 512 && 0 <= t2 < post.l3s@.len() && 0 <= e2 < 512
                && (t1, e1) != (t2, e2) implies {
            let en1 = post.l3s@[t1].entries@[e1];
            let en2 = post.l3s@[t2].entries@[e2];
            !(en1.present && !en1.huge && en2.present && !en2.huge && en1.addr == en2.addr)
        } by {
            let o1 = pre.l3s@[t1].entries@[e1];
            let o2 = pre.l3s@[t2].entries@[e2];
            if (t1, e1) == (pi, i3) {
                assert(post.l3s@[t2].entries@[e2] == o2);
                if o2.present && !o2.huge {
                    assert(o2.addr < pre.l2s@.len());
                }
            } else if (t2, e2) == (pi, i3) {
                assert(post.l3s@[t1].entries@[e1] == o1);
                if o1.present && !o1.huge {
                    assert(o1.addr < pre.l2s@.len());
                }
            } else {
                assert(post.l3s@[t1].entries@[e1] == o1);
                assert(post.l3s@[t2].entries@[e2] == o2);
            }
        }
    }
    assert(parents_unique(post.l2s@)) by {
        assert forall|t1: int, e1: int, t2: int, e2: int|
            #![trigger post.l2s@[t1].entries@[e1], post.l2s@[t2].entries@[e2]]
            0 <= t1 < post.l2s@.len() && 0 <= e1 < 512 && 0 <= t2 < post.l2s@.len() && 0 <= e2 < 512
                && (t1, e1) != (t2, e2) implies {
            let en1 = post.l2s@[t1].entries@[e1];
            let en2 = post.l2s@[t2].entries@[e2];
            !(en1.present && !en1.huge && en2.present && !en2.huge && en1.addr == en2.addr)
        } by {
            if t1 < ci && t2 < ci {
                assert(post.l2s@[t1] == pre.l2s@[t1]);
                assert(post.l2s@[t2] == pre.l2s@[t2]);
            } else if t1 == ci {
                assert(!post.l2s@[t1].entries@[e1].present);
            } else {
                assert(!post.l2s@[t2].entries@[e2].present);
            }
        }
    }
}

/// After an absent level-2 entry is pointed at a fresh, empty level-1
/// table, no address translates differently and no path gains or loses a
/// huge entry.
proof fn lemma_descend_l2_preserves_walk(
    pre: OffsetPageTable,
    post: OffsetPageTable,
    pi: int,
    i2: int,
    ci: int,
    va: u64,
)
    requires
        pre.wf(),
        0 <= pi < pre.l2s@.len(),
        0 <= i2 < 512,
        !pre.l2s@[pi].entries@[i2].present,
        ci == pre.l1s@.len(),
        0 <= ci <= u64::MAX,
        post.l4 == pre.l4,
        post.l3s@ == pre.l3s@,
        post.l2s@ == pre.l2s@.update(pi, post.l2s@[pi]),
        post.l2s@[pi].entries@ == pre.l2s@[pi].entries@.update(
            i2,
            PageTableEntry { present: true, writable: true, huge: false, addr: ci as u64 },
        ),
        post.l1s@ == pre.l1s@.push(post.l1s@[ci]),
        all_absent(post.l1s@[ci]),
        table_wf(post.l1s@[ci]),
    ensures
        post.huge_on_path(va) == pre.huge_on_path(va),
        !pre.huge_on_path(va) ==> post.spec_translate(va) == pre.spec_translate(va),
        !pre.huge_on_path(va) ==> post.mapped_writable(va) == pre.mapped_writable(va),
{
    assert(post.l4e(va) == pre.l4e(va));
    let e4 = pre.l4e(va);
    if e4.present && !e4.huge {
        assert(e4.addr < pre.l3s@.len());
        assert(post.l3e(va) == pre.l3e(va));
        let e3 = pre.l3e(va);
        if e3.present && !e3.huge {
            assert(e3.addr < pre.l2s@.len());
            if e3.addr == pi {
                if spec_p2_index(va) == i2 {
                    assert(!pre.l2e(va).present);
                    assert(post.l2e(va).addr == ci);
                    assert(!post.l1e(va).present);
                } else {
                    assert(post.l2e(va) == pre.l2e(va));
                    let e2 = pre.l2e(va);
                    if e2.present && !e2.huge {
                        assert(e2.addr < pre.l1s@.len());
                        assert(post.l1s@[e2.addr as int] == pre.l1s@[e2.addr as int]);
                        assert(post.l1e(va) == pre.l1e(va));
                    }
                }
            } else {
                assert(post.l2s@[e3.addr as int] == pre.l2s@[e3.addr as int]);
                assert(post.l2e(va) == pre.l2e(va));
                let e2 = pre.l2e(va);
                if e2.present && !e2.huge {
                    assert(e2.addr < pre.l1s@.len());
                    assert(post.l1s@[e2.addr as int] == pre.l1s@[e2.addr as int]);
                    assert(post.l1e(va) == pre.l1e(va));
                }
            }
        }
    }
}

/// Pointing an absent level-2 entry at a freshly pushed, empty level-1
/// table preserves every well-formedness clause.
proof fn lemma_descend_l2_wf(pre: OffsetPageTable, post: OffsetPageTable, pi: int, i2: int, ci: int)
    requires
        pre.wf(),
        0 <= pi < pre.l2s@.len(),
        0 <= i2 < 512,
        !pre.l2s@[pi].entries@[i2].present,
        ci == pre.l1s@.len(),
        0 <= ci <= u64::MAX,
        post.l4 == pre.l4,
        post.l3s@ == pre.l3s@,
        post.l2s@ == pre.l2s@.update(pi, post.l2s@[pi]),
        post.l2s@[pi].entries@ == pre.l2s@[pi].entries@.update(
            i2,
            PageTableEntry { present: true, writable: true, huge: false, addr: ci as u64 },
        ),
        post.l1s@ == pre.l1s@.push(post.l1s@[ci]),
        all_absent(post.l1s@[ci]),
        table_wf(post.l1s@[ci]),
    ensures
        post.wf(),
{
    assert forall|t: int| 0 <= t < post.l2s@.len() implies table_wf(#[trigger] post.l2s@[t]) by {
        if t != pi {
            assert(post.l2s@[t] == pre.l2s@[t]);
        }
    }
    assert forall|t: int| 0 <= t < post.l1s@.len() implies table_wf(#[trigger] post.l1s@[t]) by {
        if t < ci {
            assert(post.l1s@[t] == pre.l1s@[t]);
        }
    }
    assert forall|t: int| 0 <= t < post.l3s@.len() implies entries_point_below(
        #[trigger] post.l3s@[t],
        post.l2s@.len() as int,
    ) by {
        assert(post.l3s@[t] == pre.l3s@[t]);
        assert(entries_point_below(pre.l3s@[t], pre.l2s@.len() as int));
    }
    assert forall|t: int| 0 <= t < post.l2s@.len() implies entries_point_below(
        #[trigger] post.l2s@[t],
        post.l1s@.len() as int,
    ) by {
        if t != pi {
            assert(post.l2s@[t] == pre.l2s@[t]);
            assert(entries_point_below(pre.l2s@[t], pre.l1s@.len() as int));
        } else {
            assert forall|e: int| 0 <= e < post.l2s@[t].entries@.len() implies {
                let en = #[trigger] post.l2s@[t].entries@[e];
                en.present && !en.huge ==> en.addr < post.l1s@.len()
            } by {
                if e != i2 {
                    assert(post.l2s@[t].entries@[e] == pre.l2s@[t].entries@[e]);
                }
            }
        }
    }
    assert forall|t: int| 0 <= t < post.l1s@.len() implies leaf_frames_aligned(
        #[trigger] post.l1s@[t],
    ) by {
        if t < ci {
            assert(post.l1s@[t] == pre.l1s@[t]);
        }
    }
    assert(parents_unique(post.l3s@)) by {
        assert(post.l3s@ == pre.l3s@);
    }
    assert(parents_unique(post.l2s@)) by {
        assert forall|t1: int, e1: int, t2: int, e2: int|
            #![trigger post.l2s@[t1].entries@[e1], post.l2s@[t2].entries@[e2]]
            0 <= t1 < post.l2s@.len() && 0 <= e1 < 512 && 0 <= t2 < post.l2s@.len() && 0 <= e2 < 512
                && (t1, e1) != (t2, e2) implies {
            let en1 = post.l2s@[t1].entries@[e1];
            let en2 = post.l2s@[t2].entries@[e2];
            !(en1.present && !en1.huge && en2.present && !en2.huge && en1.addr == en2.addr)
        } by {
            let o1 = pre.l2s@[t1].entries@[e1];
            let o2 = pre.l2s@[t2].entries@[e2];
            if (t1, e1) == (pi, i2) {
                assert(post.l2s@[t2].entries@[e2] == o2);
                if o2.present && !o2.huge {
                    assert(o2.addr < pre.l1s@.len());
                }
            } else if (t2, e2) == (pi, i2) {
                assert(post.l2s@[t1].entries@[e1] == o1);
                if o1.present && !o1.huge {
                    assert(o1.addr < pre.l1s@.len());
                }
            } else {
                assert(post.l2s@[t1].entries@[e1] == o1);
                assert(post.l2s@[t2].entries@[e2] == o2);
            }
        }
    }
}

/// After an absent level-4 entry is pointed at a fresh, empty level-3
/// table, no address translates differently (a walk that reaches the new
/// table ends at an absent entry) and no path gains or loses a huge entry.
proof fn lemma_descend_preserves_walk(
    pre: OffsetPageTable,
    post: OffsetPageTable,
    page: u64,
    ci: int,
    va: u64,
)
    requires
        pre.wf(),
        !pre.l4e(page).present,
        ci == pre.l3s@.len(),
        0 <= ci <= u64::MAX,
        post.l4.entries@ == pre.l4.entries@.update(
            spec_p4_index(page),
            PageTableEntry { present: true, writable: true, huge: false, addr: ci as u64 },
        ),
        post.l3s@ == pre.l3s@.push(post.l3s@[ci]),
        all_absent(post.l3s@[ci]),
        table_wf(post.l3s@[ci]),
        post.l2s@ == pre.l2s@,
        post.l1s@ == pre.l1s@,
    ensures
        post.huge_on_path(va) == pre.huge_on_path(va),
        !pre.huge_on_path(va) ==> post.spec_translate(va) == pre.spec_translate(va),
        !pre.huge_on_path(va) ==> post.mapped_writable(va) == pre.mapped_writable(va),
{
    if spec_p4_index(va) == spec_p4_index(page) {
        assert(post.l4e(va).addr == ci);
        assert(!post.l3e(va).present);
    } else {
        assert(post.l4e(va) == pre.l4e(va));
        if pre.l4e(va).present && !pre.l4e(va).huge {
            assert(pre.l4e(va).addr < pre.l3s@.len());
            assert(post.l3s@[pre.l4e(va).addr as int] == pre.l3s@[pre.l4e(va).addr as int]);
            assert(post.l3e(va) == pre.l3e(va));
            assert(post.l2e(va) == pre.l2e(va));
            assert(post.l1e(va) == pre.l1e(va));
        }
    }
}

/// Pointing an absent level-4 entry at a freshly pushed, empty level-3
/// table preserves every well-formedness clause.
proof fn lemma_descend_l4_wf(pre: OffsetPageTable, post: OffsetPageTable, page: u64, ci: int)
    requires
        pre.wf(),
        !pre.l4e(page).present,
        ci == pre.l3s@.len(),
        0 <= ci <= u64::MAX,
        post.l4.entries@ == pre.l4.entries@.update(
            spec_p4_index(page),
            PageTableEntry { present: true, writable: true, huge: false, addr: ci as u64 },
        ),
        post.l3s@ == pre.l3s@.push(post.l3s@[ci]),
        all_absent(post.l3s@[ci]),
        table_wf(post.l3s@[ci]),
        post.l2s@ == pre.l2s@,
        post.l1s@ == pre.l1s@,
    ensures
        post.wf(),
{
    let i4 = spec_p4_index(page);
    assert(0 <= i4 < 512);
    assert forall|t: int| 0 <= t < post.l3s@.len() implies table_wf(#[trigger] post.l3s@[t]) by {
        if t < ci {
            assert(post.l3s@[t] == pre.l3s@[t]);
        }
    }
    assert forall|t: int| 0 <= t < post.l3s@.len() implies entries_point_below(
        #[trigger] post.l3s@[t],
        post.l2s@.len() as int,
    ) by {
        if t < ci {
            assert(post.l3s@[t] == pre.l3s@[t]);
        }
    }
    assert(entries_point_below(post.l4, post.l3s@.len() as int)) by {
        assert forall|e: int| 0 <= e < post.l4.entries@.len() implies {
            let en = #[trigger] post.l4.entries@[e];
            en.present && !en.huge ==> en.addr < post.l3s@.len()
        } by {
            if e != i4 {
                assert(post.l4.entries@[e] == pre.l4.entries@[e]);
            }
        }
    }
    assert(parents_unique(post.l3s@)) by {
        assert forall|t1: int, e1: int, t2: int, e2: int|
            #![trigger post.l3s@[t1].entries@[e1], post.l3s@[t2].entries@[e2]]
            0 <= t1 < post.l3s@.len() && 0 <= e1 < 512 && 0 <= t2 < post.l3s@.len() && 0 <= e2 < 512
                && (t1, e1) != (t2, e2) implies {
            let en1 = post.l3s@[t1].entries@[e1];
            let en2 = post.l3s@[t2].entries@[e2];
            !(en1.present && !en1.huge && en2.present && !en2.huge && en1.addr == en2.addr)
        } by {
            if t1 < ci && t2 < ci {
                assert(post.l3s@[t1] == pre.l3s@[t1]);
                assert(post.l3s@[t2] == pre.l3s@[t2]);
            } else if t1 == ci {
                assert(!post.l3s@[t1].entries@[e1].present);
            } else {
                assert(!post.l3s@[t2].entries@[e2].present);
            }
        }
    }
    assert(post.l4_children_unique()) by {
        assert forall|e1: int, e2: int|
            #![trigger post.l4.entries@[e1], post.l4.entries@[e2]]
            0 <= e1 < 512 && 0 <= e2 < 512 && e1 != e2 implies {
            let en1 = post.l4.entries@[e1];
            let en2 = post.l4.entries@[e2];
            !(en1.present && !en1.huge && en2.present && !en2.huge && en1.addr == en2.addr)
        } by {
            if e1 != i4 && e2 != i4 {
                assert(post.l4.entries@[e1] == pre.l4.entries@[e1]);
                assert(post.l4.entries@[e2] == pre.l4.entries@[e2]);
            } else if e1 == i4 {
                assert(post.l4.entries@[e2] == pre.l4.entries@[e2]);
                if pre.l4.entries@[e2].present && !pre.l4.entries@[e2].huge {
                    assert(pre.l4.entries@[e2].addr < ci);
                }
            } else {
                assert(post.l4.entries@[e1] == pre.l4.entries@[e1]);
                if pre.l4.entries@[e1].present && !pre.l4.entries@[e1].huge {
                    assert(pre.l4.entries@[e1].addr < ci);
                }
            }
        }
    }
}

/// Install a mapping from the 4096-byte page at `page` to the frame at
/// `frame` in the active page table, creating intermediate tables from the
/// frame allocator as the walk needs them. Exactly the walks through
/// `page`'s own slots change; every other address keeps its translation.
/// Fails with `FrameAllocationFailed` when the allocator runs dry
/// mid-walk, with `ParentEntryHugePage` on a huge interior entry, and with
/// `PageAlreadyMapped` when the page already has a level-1 entry.
pub fn create_mapping(
    page: u64,
    frame: u64,
    flags: PageFlags,
    mapper: &mut OffsetPageTable,
    frame_allocator: &mut BootInfoFrameAllocator,
) -> (r: Result<(), MapToError>)
    requires
        old(mapper).wf(),
        old(frame_allocator).wf(),
        old(frame_allocator).spec_next() + 3 <= usize::MAX,
        page % 4096 == 0,
        frame % 4096 == 0,
    ensures
        final(mapper).wf(),
        final(mapper).phys_offset == old(mapper).phys_offset,
        final(frame_allocator).wf(),
        final(frame_allocator).spec_regions() == old(frame_allocator).spec_regions(),
        old(frame_allocator).spec_next() <= final(frame_allocator).spec_next() <= old(
            frame_allocator,
        ).spec_next() + 3,
        forall|va: u64| final(mapper).huge_on_path(va) == old(mapper).huge_on_path(va),
        match r {
            Ok(()) => {
                &&& !old(mapper).huge_on_path(page)
                &&& old(mapper).spec_translate(page) is None
                &&& (old(mapper).missing_tables(page) == 0 || old(
                    frame_allocator,
                ).frames_remaining() >= old(mapper).missing_tables(page))
                &&& final(frame_allocator).spec_next() == old(frame_allocator).spec_next() + old(
                    mapper,
                ).missing_tables(page)
                &&& forall|va: u64|
                    same_slot(va, page) ==> final(mapper).spec_translate(va) == (if flags.present {
                        Some((frame + va % 4096) as u64)
                    } else {
                        None
                    })
                &&& forall|va: u64|
                    !same_slot(va, page) && !old(mapper).huge_on_path(va)
                        ==> final(mapper).spec_translate(va) == old(mapper).spec_translate(va)
                &&& forall|va: u64|
                    same_slot(va, page) ==> final(mapper).l1e(va) == (PageTableEntry {
                        present: flags.present,
                        writable: flags.writable,
                        huge: false,
                        addr: frame,
                    })
                &&& forall|va: u64|
                    !same_slot(va, page) && !old(mapper).huge_on_path(va)
                        ==> final(mapper).mapped_writable(va) == old(mapper).mapped_writable(va)
            },
            Err(MapToError::ParentEntryHugePage) => {
                &&& old(mapper).huge_on_path(page)
                &&& *final(mapper) == *old(mapper)
                &&& *final(frame_allocator) == *old(frame_allocator)
            },
            Err(MapToError::PageAlreadyMapped(f)) => {
                &&& !old(mapper).huge_on_path(page)
                &&& old(mapper).spec_translate(page) == Some(f)
                &&& *final(mapper) == *old(mapper)
                &&& *final(frame_allocator) == *old(frame_allocator)
            },
            Err(MapToError::FrameAllocationFailed) => {
                &&& !old(mapper).huge_on_path(page)
                &&& old(mapper).spec_translate(page) is None
                &&& old(frame_allocator).frames_remaining() < old(mapper).missing_tables(page)
                &&& forall|va: u64|
                    !old(mapper).huge_on_path(va)
                        ==> final(mapper).spec_translate(va) == old(mapper).spec_translate(va)
                &&& forall|va: u64|
                    !old(mapper).huge_on_path(va)
                        ==> final(mapper).mapped_writable(va) == old(mapper).mapped_writable(va)
            },
        },
{
    let ghost m0 = *old(mapper);
    let ghost f0 = *old(frame_allocator);
    let l3i = match mapper.descend_l4(page, frame_allocator) {
        Ok(i) => i,
        Err(e) => {
            proof {
                if e == MapToError::FrameAllocationFailed {
                    assert(!m0.l4e(page).present);
                    assert(m0.missing_tables(page) == 3);
                }
            }
            return Err(e);
        },
    };
    let ghost m1 = *mapper;
    let ghost f1 = *frame_allocator;
    let l2i = match mapper.descend_l3(l3i, page, frame_allocator) {
        Ok(i) => i,
        Err(e) => {
            proof {
                let e_old = m1.l3s@[l3i as int].entries@[spec_p3_index(page)];
                if !m0.l4e(page).present {
                    assert(all_absent(m1.l3s@[l3i as int]));
                    assert(!e_old.present);
                    assert(e != MapToError::ParentEntryHugePage);
                    assert(m0.missing_tables(page) == 3);
                    assert(f1.frames_remaining() == f0.frames_remaining() - 1);
                } else {
                    assert(m1 == m0);
                    assert(e_old == m0.l3e(page));
                    if e == MapToError::FrameAllocationFailed {
                        assert(m0.missing_tables(page) == 2);
                    }
                }
            }
            return Err(e);
        },
    };
    let ghost m2 = *mapper;
    let ghost f2 = *frame_allocator;
    let l1i = match mapper.descend_l2(l2i, page, frame_allocator) {
        Ok(i) => i,
        Err(e) => {
            proof {
                let e_old = m2.l2s@[l2i as int].entries@[spec_p2_index(page)];
                if !m0.l4e(page).present {
                    assert(all_absent(m1.l3s@[l3i as int]));
                    assert(!m1.l3s@[l3i as int].entries@[spec_p3_index(page)].present);
                    assert(all_absent(m2.l2s@[l2i as int]));
                    assert(!e_old.present);
                    assert(e == MapToError::FrameAllocationFailed);
                    assert(m0.missing_tables(page) == 3);
                    assert(f2.frames_remaining() == f0.frames_remaining() - 2);
                } else {
                    assert(m1 == m0 && f1 == f0);
                    if !m0.l3e(page).present {
                        assert(all_absent(m2.l2s@[l2i as int]));
                        assert(!e_old.present);
                        assert(e == MapToError::FrameAllocationFailed);
                        assert(m0.missing_tables(page) == 2);
                        assert(f2.frames_remaining() == f0.frames_remaining() - 1);
                    } else {
                        assert(m2 == m1 && f2 == f1);
                        assert(e_old == m0.l2e(page));
                        if e == MapToError::FrameAllocationFailed {
                            assert(m0.missing_tables(page) == 1);
                        }
                    }
                }
            }
            return Err(e);
        },
    };
    let ghost m3 = *mapper;
    let ghost f3 = *frame_allocator;
    proof {
        assert(m3.l4e(page).present && !m3.l4e(page).huge && m3.l4e(page).addr == l3i as u64);
        assert(m3.l3e(page) == m3.l3s@[l3i as int].entries@[spec_p3_index(page)]);
        assert(m3.l3e(page).present && !m3.l3e(page).huge && m3.l3e(page).addr == l2i as u64);
        assert(m3.l2e(page) == m3.l2s@[l2i as int].entries@[spec_p2_index(page)]);
        assert(m3.l2e(page).present && !m3.l2e(page).huge && m3.l2e(page).addr == l1i as u64);
        assert(m3.l1e(page) == m3.l1s@[l1i as int].entries@[spec_p1_index(page)]);
        assert(m3.l1s@.len() == mapper.l1s.len());
        assert(!m0.huge_on_path(page));
        if !m0.l4e(page).present {
            assert(all_absent(m1.l3s@[l3i as int]));
            assert(!m1.l3s@[l3i as int].entries@[spec_p3_index(page)].present);
            assert(all_absent(m2.l2s@[l2i as int]));
            assert(!m2.l2s@[l2i as int].entries@[spec_p2_index(page)].present);
            assert(all_absent(m3.l1s@[l1i as int]));
            assert(!m3.l1e(page).present);
            assert(m0.missing_tables(page) == 3);
            assert(f1.frames_remaining() == f0.frames_remaining() - 1);
            assert(f2.frames_remaining() == f0.frames_remaining() - 2);
            assert(f3.spec_next() == f0.spec_next() + 3);
            assert(f0.frames_remaining() >= 3);
        } else {
            assert(m1 == m0 && f1 == f0);
            assert(m1.l3s@[l3i as int].entries@[spec_p3_index(page)] == m0.l3e(page));
            if !m0.l3e(page).present {
                assert(all_absent(m2.l2s@[l2i as int]));
                assert(!m2.l2s@[l2i as int].entries@[spec_p2_index(page)].present);
                assert(all_absent(m3.l1s@[l1i as int]));
                assert(!m3.l1e(page).present);
                assert(m0.missing_tables(page) == 2);
                assert(f2.frames_remaining() == f0.frames_remaining() - 1);
                assert(f3.spec_next() == f0.spec_next() + 2);
                assert(f0.frames_remaining() >= 2);
            } else {
                assert(m2 == m1 && f2 == f1);
                assert(m2.l2s@[l2i as int].entries@[spec_p2_index(page)] == m0.l2e(page));
                if !m0.l2e(page).present {
                    assert(all_absent(m3.l1s@[l1i as int]));
                    assert(!m3.l1e(page).present);
                    assert(m0.missing_tables(page) == 1);
                    assert(f3.spec_next() == f0.spec_next() + 1);
                    assert(f0.frames_remaining() >= 1);
                } else {
                    assert(m3 == m2 && f3 == f2);
                    assert(m0.missing_tables(page) == 0);
                    assert(m3.l1e(page) == m0.l1e(page));
                }
            }
        }
    }
    let i1 = p1_index(page);
    let e1 = mapper.l1s[l1i].entries[i1];
    if e1.present {
        proof {
            assert(e1 == m3.l1e(page));
            assert(m3 == m0 && f3 == f0);
            assert(m0.spec_translate(page) == Some((e1.addr + page % 4096) as u64));
            assert(page % 4096 == 0);
            assert((e1.addr + page % 4096) as u64 == e1.addr);
        }
        return Err(MapToError::PageAlreadyMapped(e1.addr));
    }
    let written = PageTableEntry {
        present: flags.present,
        writable: flags.writable,
        huge: false,
        addr: frame,
    };
    mapper.l1s[l1i].entries[i1] = written;
    proof {
        let post = *mapper;
        assert(post.l1s@ == m3.l1s@.update(l1i as int, post.l1s@[l1i as int]));
        assert(post.l1s@[l1i as int].entries@ == m3.l1s@[l1i as int].entries@.update(
            i1 as int,
            written,
        ));
        assert(post.wf()) by {
            lemma_set_l1_wf(m3, post, l1i as int, i1 as int, written);
        }
        assert forall|va: u64| post.huge_on_path(va) == m3.huge_on_path(va) by {
            lemma_set_l1_translate(m3, post, page, l1i as int, i1 as int, written, va);
        }
        assert forall|va: u64| same_slot(va, page) implies post.spec_translate(va) == (
        if flags.present {
            Some((frame + va % 4096) as u64)
        } else {
            None
        }) by {
            lemma_set_l1_translate(m3, post, page, l1i as int, i1 as int, written, va);
        }
        assert forall|va: u64| !same_slot(va, page) && !m0.huge_on_path(va) implies post.spec_translate(
            va,
        ) == m0.spec_translate(va) by {
            assert(m3.huge_on_path(va) == m0.huge_on_path(va));
            assert(m3.spec_translate(va) == m0.spec_translate(va));
            lemma_set_l1_translate(m3, post, page, l1i as int, i1 as int, written, va);
        }
        assert forall|va: u64| same_slot(va, page) implies post.l1e(va) == written by {
            lemma_set_l1_translate(m3, post, page, l1i as int, i1 as int, written, va);
        }
        assert forall|va: u64| !same_slot(va, page) && !m0.huge_on_path(va) implies post.mapped_writable(
            va,
        ) == m0.mapped_writable(va) by {
            assert(m3.huge_on_path(va) == m0.huge_on_path(va));
            assert(m3.mapped_writable(va) == m0.mapped_writable(va));
            lemma_set_l1_translate(m3, post, page, l1i as int, i1 as int, written, va);
        }
        assert(!m3.l1e(page).present ==> m0.spec_translate(page) is None);
        assert(m0.spec_translate(page) is None);
    }
    Ok(())
}

/// Two walks that meet in the same level-1 slot are walks through the same
/// four slots: no table of the hierarchy has two parents, so the chain of
/// tables above a level-1 entry is unique.
proof fn lemma_chain_unique(m: OffsetPageTable, page: u64, va: u64)
    requires
        m.wf(),
        m.l4e(page).present && !m.l4e(page).huge,
        m.l3e(page).present && !m.l3e(page).huge,
        m.l2e(page).present && !m.l2e(page).huge,
        m.l4e(va).present && !m.l4e(va).huge,
        m.l3e(va).present && !m.l3e(va).huge,
        m.l2e(va).present && !m.l2e(va).huge,
        m.l2e(va).addr == m.l2e(page).addr,
        spec_p1_index(va) == spec_p1_index(page),
    ensures
        same_slot(va, page),
{
    let t3v = m.l4e(va).addr as int;
    let t3p = m.l4e(page).addr as int;
    let t2v = m.l3e(va).addr as int;
    let t2p = m.l3e(page).addr as int;
    assert(t3v < m.l3s@.len() && t3p < m.l3s@.len());
    assert(t2v < m.l2s@.len() && t2p < m.l2s@.len());
    assert(m.l2s@[t2v].entries@[spec_p2_index(va)] == m.l2e(va));
    assert(m.l2s@[t2p].entries@[spec_p2_index(page)] == m.l2e(page));
    assert((t2v, spec_p2_index(va)) == (t2p, spec_p2_index(page)));
    assert(m.l3s@[t3v].entries@[spec_p3_index(va)] == m.l3e(va));
    assert(m.l3s@[t3p].entries@[spec_p3_index(page)] == m.l3e(page));
    assert(m.l3e(va).addr == m.l3e(page).addr);
    assert((t3v, spec_p3_index(va)) == (t3p, spec_p3_index(page)));
    assert(m.l4.entries@[spec_p4_index(va)] == m.l4e(va));
    assert(m.l4.entries@[spec_p4_index(page)] == m.l4e(page));
    assert(m.l4e(va).addr == m.l4e(page).addr);
    assert(spec_p4_index(va) == spec_p4_index(page));
}

/// Writing a frame-aligned level-1 entry preserves every well-formedness
/// clause: leaves carry no structural obligations beyond alignment.
proof fn lemma_set_l1_wf(
    pre: OffsetPageTable,
    post: OffsetPageTable,
    l1i: int,
    i1: int,
    written: PageTableEntry,
)
    requires
        pre.wf(),
        0 <= l1i < pre.l1s@.len(),
        l1i <= u64::MAX,
        0 <= i1 < 512,
        written.addr % 4096 == 0,
        post.l4 == pre.l4,
        post.l3s@ == pre.l3s@,
        post.l2s@ == pre.l2s@,
        post.l1s@ == pre.l1s@.update(l1i, post.l1s@[l1i]),
        post.l1s@[l1i].entries@ == pre.l1s@[l1i].entries@.update(i1, written),
    ensures
        post.wf(),
{
    assert forall|t: int| 0 <= t < post.l1s@.len() implies table_wf(#[trigger] post.l1s@[t]) by {
        if t != l1i {
            assert(post.l1s@[t] == pre.l1s@[t]);
        }
    }
    assert forall|t: int| 0 <= t < post.l1s@.len() implies leaf_frames_aligned(
        #[trigger] post.l1s@[t],
    ) by {
        if t != l1i {
            assert(post.l1s@[t] == pre.l1s@[t]);
        } else {
            assert forall|e: int| 0 <= e < post.l1s@[t].entries@.len() implies ((
            #[trigger] post.l1s@[t].entries@[e]).present ==> post.l1s@[t].entries@[e].addr % 4096
                == 0) by {
                if e != i1 {
                    assert(post.l1s@[t].entries@[e] == pre.l1s@[t].entries@[e]);
                }
            }
        }
    }
}

/// Writing the level-1 entry of `page`'s slot changes the translation of
/// exactly the addresses that share all four slots with `page`: the chain
/// of tables above a level-1 slot is unique, so no other walk reaches it.
#[verifier::rlimit(60)]
proof fn lemma_set_l1_translate(
    pre: OffsetPageTable,
    post: OffsetPageTable,
    page: u64,
    l1i: int,
    i1: int,
    written: PageTableEntry,
    va: u64,
)
    requires
        pre.wf(),
        pre.l4e(page).present && !pre.l4e(page).huge,
        pre.l3e(page).present && !pre.l3e(page).huge,
        pre.l2e(page).present && !pre.l2e(page).huge,
        pre.l2e(page).addr == l1i as u64,
        i1 == spec_p1_index(page),
        0 <= l1i < pre.l1s@.len(),
        l1i <= u64::MAX,
        !written.huge,
        post.l4 == pre.l4,
        post.l3s@ == pre.l3s@,
        post.l2s@ == pre.l2s@,
        post.l1s@ == pre.l1s@.update(l1i, post.l1s@[l1i]),
        post.l1s@[l1i].entries@ == pre.l1s@[l1i].entries@.update(i1, written),
    ensures
        post.huge_on_path(va) == pre.huge_on_path(va),
        same_slot(va, page) ==> post.spec_translate(va) == (if written.present {
            Some((written.addr + va % 4096) as u64)
        } else {
            None
        }),
        same_slot(va, page) ==> post.l1e(va) == written && post.l4e(va).present && post.l3e(
            va,
        ).present && post.l2e(va).present,
        !same_slot(va, page) && !pre.huge_on_path(va) ==> post.spec_translate(va)
            == pre.spec_translate(va),
        !same_slot(va, page) && !pre.huge_on_path(va) ==> post.mapped_writable(va)
            == pre.mapped_writable(va),
{
    assert(post.l4e(va) == pre.l4e(va));
    assert(table_wf(pre.l1s@[l1i]));
    assert(0 <= i1 < 512);
    assert(post.l1s@[l1i].entries@[i1] == written);
    if same_slot(va, page) {
        assert(spec_p1_index(va) == i1);
        assert(post.l4e(va) == pre.l4e(page));
        assert(post.l3e(va) == pre.l3e(page));
        assert(post.l2e(va) == pre.l2e(page));
        assert(post.l2e(va).addr == l1i as u64);
        assert(post.l1e(va) == post.l1s@[l1i].entries@[i1]);
        assert(post.l1e(va) == written);
    } else {
        let e4 = pre.l4e(va);
        if e4.present && !e4.huge {
            assert(e4.addr < pre.l3s@.len());
            assert(post.l3e(va) == pre.l3e(va));
            let e3 = pre.l3e(va);
            if e3.present && !e3.huge {
                assert(e3.addr < pre.l2s@.len());
                assert(post.l2e(va) == pre.l2e(va));
                let e2 = pre.l2e(va);
                if e2.present {
                    if !e2.huge {
                        assert(e2.addr < pre.l1s@.len());
                        if e2.addr == l1i && spec_p1_index(va) == i1 {
                            lemma_chain_unique(pre, page, va);
                            assert(false);
                        } else if e2.addr == l1i {
                            assert(post.l1s@[l1i].entries@[spec_p1_index(va)]
                                == pre.l1s@[l1i].entries@[spec_p1_index(va)]);
                            assert(post.l1e(va) == pre.l1e(va));
                        } else {
                            assert(post.l1s@[e2.addr as int] == pre.l1s@[e2.addr as int]);
                            assert(post.l1e(va) == pre.l1e(va));
                        }
                    }
                }
            }
        }
    }
}

/// Translation distributes over a mapped page: once `page` translates to
/// `frame`, every address inside the page translates to the frame base
/// plus the address's offset within the page.
pub proof fn lemma_translate_in_mapped_page(m: OffsetPageTable, page: u64, frame: u64, va: u64)
    requires
        m.wf(),
        !m.huge_on_path(page),
        page % 4096 == 0,
        m.spec_translate(page) == Some(frame),
        page <= va < page + 4096,
    ensures
        frame + (va - page) <= u64::MAX,
        m.spec_translate(va) == Some((frame + (va - page)) as u64),
{
    lemma_same_page_same_slot(page, va);
    assert(m.l4e(va) == m.l4e(page));
    assert(m.l3e(va) == m.l3e(page));
    assert(m.l2e(va) == m.l2e(page));
    assert(m.l1e(va) == m.l1e(page));
    assert(m.l4e(page).present && !m.l4e(page).huge);
    assert(m.l4e(page).addr < m.l3s@.len());
    assert(m.l3e(page).present && !m.l3e(page).huge);
    assert(m.l3e(page).addr < m.l2s@.len());
    assert(m.l2e(page).present && !m.l2e(page).huge);
    assert(m.l2e(page).addr < m.l1s@.len());
    assert(m.l1e(page).addr % 4096 == 0);
    assert(m.l1e(page).addr + 4095 <= u64::MAX) by (nonlinear_arith)
        requires
            m.l1e(page).addr % 4096 == 0,
    ;
    assert(frame == m.l1e(page).addr);
}

/// An address whose top-level entry is absent translates to nothing.
pub proof fn lemma_translate_absent_top(m: OffsetPageTable, va: u64)
    requires
        !m.l4e(va).present,
    ensures
        m.spec_translate(va) is None,
{
}

/// The four slot indexes of an address are exactly the low 36 bits of its
/// page number.
proof fn lemma_slot_decomposition(a: u64)
    ensures
        spec_page_number(a) % 0x10_0000_0000 == spec_p1_index(a) + 512 * spec_p2_index(a)
            + 0x4_0000 * spec_p3_index(a) + 0x800_0000 * spec_p4_index(a),
{
    assert((a / 4096) % 0x10_0000_0000 == ((a / 4096) % 512) + 512 * (((a / 4096) / 512) % 512)
        + 0x4_0000 * (((a / 4096) / 0x4_0000) % 512) + 0x800_0000 * (((a / 4096) / 0x800_0000)
        % 512)) by (bit_vector);
}

/// Two distinct page bases less than 2^48 apart never share all four
/// table slots: mapping the one cannot disturb the other.
pub proof fn lemma_nearby_pages_not_same_slot(p1: u64, p2: u64)
    requires
        p1 % 4096 == 0,
        p2 % 4096 == 0,
        p1 < p2,
        p2 - p1 < 0x1_0000_0000_0000,
    ensures
        !same_slot(p2, p1),
        !same_slot(p1, p2),
{
    lemma_slot_decomposition(p1);
    lemma_slot_decomposition(p2);
    let n1 = spec_page_number(p1);
    let n2 = spec_page_number(p2);
    assert(n1 < n2 && n2 - n1 < 0x10_0000_0000) by (nonlinear_arith)
        requires
            p1 % 4096 == 0,
            p2 % 4096 == 0,
            p1 < p2,
            p2 - p1 < 0x1_0000_0000_0000,
            n1 == p1 / 4096,
            n2 == p2 / 4096,
    ;
    if same_slot(p2, p1) {
        assert(n1 % 0x10_0000_0000 == n2 % 0x10_0000_0000);
        assert(false) by (nonlinear_arith)
            requires
                n1 < n2,
                n2 - n1 < 0x10_0000_0000,
                n1 % 0x10_0000_0000 == n2 % 0x10_0000_0000,
        ;
    }
}

/// A 512-entry table with every entry absent.
fn empty_table() -> (r: PageTable)
    ensures
        table_wf(r),
        forall|e: int| 0 <= e < 512 ==> !(#[trigger] r.entries@[e]).present,
{
    let mut entries: Vec<PageTableEntry> = Vec::new();
    let mut k: usize = 0;
    while k < 512
        invariant
            k <= 512,
            entries@.len() == k,
            forall|e: int| 0 <= e < k ==> !(#[trigger] entries@[e]).present,
        decreases 512 - k,
    {
        entries.push(PageTableEntry { present: false, writable: false, huge: false, addr: 0 });
        k = k + 1;
    }
    PageTable { entries }
}

} // verus!
