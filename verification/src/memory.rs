//! The virtual-memory core: physical frame allocation from the boot memory
//! map, the four-level page-table model with translation and mapping, and
//! the kernel heap allocator seeded over the mapped heap region.

use vstd::prelude::*;

pub mod frame_allocator;
pub mod heap_allocator;
pub mod paging;

use crate::memory::paging::OffsetPageTable;

verus! {

/// Take over the active address space under the boot-supplied
/// physical-memory offset. The hardware glue reads the level-4 root
/// register; the model starts from the root with no mapping installed.
pub fn init(physical_memory_offset: u64) -> (r: OffsetPageTable)
    ensures
        r.wf(),
        r.spec_phys_offset() == physical_memory_offset,
        forall|addr: u64| r.spec_translate(addr) is None,
        forall|addr: u64| !r.huge_on_path(addr),
{
    OffsetPageTable::new(physical_memory_offset)
}

/// Translate a virtual address through the active page table: the mapped
/// frame's base plus the page offset, or absence when any level of the
/// walk is absent. A huge entry on the walk is fatal and excluded here.
pub fn translate_addr(mapper: &OffsetPageTable, addr: u64) -> (r: Option<u64>)
    requires
        mapper.wf(),
        !mapper.huge_on_path(addr),
    ensures
        r == mapper.spec_translate(addr),
{
    mapper.translate_addr(addr)
}

} // verus!
