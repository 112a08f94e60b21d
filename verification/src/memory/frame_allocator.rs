//! Physical frame allocation from the boot-supplied memory map.
//!
//! The memory map is an ordered list of region descriptors; the usable
//! regions, cut into 4096-byte frames, form one fixed sequence of frame
//! addresses. The allocator is a monotone cursor into that sequence: it
//! hands out the frame at position `next` and advances, never reusing or
//! reclaiming a frame.

#![verifier::loop_isolation(false)]

use vstd::prelude::*;

verus! {

/// Size of a physical frame and of a virtual page, in bytes.
pub const PAGE_SIZE: u64 = 4096;

/// One descriptor of the boot memory map: a half-open physical range
/// `[start, end)` that is either usable RAM or reserved.
#[derive(Clone, Copy, PartialEq, Eq, Structural, Debug)]
pub struct MemoryRegion {
    pub start: u64,
    pub end: u64,
    pub usable: bool,
}

/// A single region is frame-aligned and non-inverted.
pub open spec fn region_wf(r: MemoryRegion) -> bool {
    &&& r.start % 4096 == 0
    &&& r.end % 4096 == 0
    &&& r.start <= r.end
}

/// The boot memory map is ordered: regions are well formed, sorted by
/// address and pairwise disjoint.
pub open spec fn regions_wf(rs: Seq<MemoryRegion>) -> bool {
    &&& forall|i: int| 0 <= i < rs.len() ==> region_wf(#[trigger] rs[i])
    &&& forall|i: int, j: int|
        0 <= i < j < rs.len() ==> (#[trigger] rs[i]).end <= (#[trigger] rs[j]).start
}

/// How many frames a region contributes: its 4096-byte units if usable,
/// none if reserved.
pub open spec fn region_frame_count(r: MemoryRegion) -> nat {
    if r.usable {
        ((r.end - r.start) / 4096) as nat
    } else {
        0
    }
}

/// The frame addresses a single region contributes, in ascending order.
pub open spec fn region_frames(r: MemoryRegion) -> Seq<u64> {
    Seq::new(region_frame_count(r), |i: int| (r.start + 4096 * i) as u64)
}

/// All usable frame addresses of a memory map, region by region.
pub open spec fn regions_frames(rs: Seq<MemoryRegion>) -> Seq<u64>
    decreases rs.len(),
{
    if rs.len() == 0 {
        Seq::empty()
    } else {
        region_frames(rs[0]) + regions_frames(rs.drop_first())
    }
}

proof fn lemma_regions_frames_take_step(rs: Seq<MemoryRegion>, i: int)
    requires
        0 <= i < rs.len(),
    ensures
        regions_frames(rs.take(i + 1)) == regions_frames(rs.take(i)) + region_frames(rs[i]),
    decreases i,
{
    if i == 0 {
        assert(rs.take(1)[0] == rs[0]);
        assert(rs.take(1).drop_first() =~= Seq::<MemoryRegion>::empty());
        assert(regions_frames(Seq::<MemoryRegion>::empty()) == Seq::<u64>::empty());
        assert(rs.take(0) =~= Seq::<MemoryRegion>::empty());
        assert(regions_frames(rs.take(1)) == region_frames(rs[0]) + Seq::<u64>::empty());
        assert(region_frames(rs[0]) + Seq::<u64>::empty() =~= Seq::<u64>::empty() + region_frames(
            rs[0],
        ));
    } else {
        lemma_regions_frames_take_step(rs.drop_first(), i - 1);
        assert(rs.take(i + 1).drop_first() =~= rs.drop_first().take(i));
        assert(rs.take(i).drop_first() =~= rs.drop_first().take(i - 1));
        assert(rs.take(i + 1)[0] == rs[0]);
        assert(rs.take(i)[0] == rs[0]);
        assert(rs.drop_first()[i - 1] == rs[i]);
        assert(regions_frames(rs.take(i + 1)) == region_frames(rs[0]) + regions_frames(
            rs.drop_first().take(i),
        ));
        assert(regions_frames(rs.take(i)) + region_frames(rs[i]) == region_frames(rs[0])
            + (regions_frames(rs.drop_first().take(i - 1)) + region_frames(rs[i])));
    }
}

proof fn lemma_regions_frames_index(rs: Seq<MemoryRegion>, i: int, offset: int)
    requires
        0 <= i < rs.len(),
        0 <= offset < region_frame_count(rs[i]),
    ensures
        regions_frames(rs).len() >= regions_frames(rs.take(i)).len() + region_frame_count(rs[i]),
        regions_frames(rs)[regions_frames(rs.take(i)).len() + offset] == region_frames(
            rs[i],
        )[offset],
    decreases i,
{
    if i == 0 {
        assert(regions_frames(rs.take(0)) =~= Seq::<u64>::empty());
        assert(regions_frames(rs) == region_frames(rs[0]) + regions_frames(rs.drop_first()));
    } else {
        lemma_regions_frames_index(rs.drop_first(), i - 1, offset);
        assert(rs.take(i).drop_first() =~= rs.drop_first().take(i - 1));
        assert(rs.drop_first()[i - 1] == rs[i]);
        assert(regions_frames(rs.take(i)) == region_frames(rs[0]) + regions_frames(
            rs.drop_first().take(i - 1),
        ));
        assert(regions_frames(rs) == region_frames(rs[0]) + regions_frames(rs.drop_first()));
        let pre = regions_frames(rs.drop_first().take(i - 1)).len() + offset;
        assert(regions_frames(rs)[region_frames(rs[0]).len() + pre] == regions_frames(
            rs.drop_first(),
        )[pre]);
    }
}

/// The frame allocator built over the boot memory map: an ordered region
/// list and a monotone cursor of already-issued frames.
pub struct BootInfoFrameAllocator {
    pub regions: Vec<MemoryRegion>,
    pub next: usize,
}

impl BootInfoFrameAllocator {
    /// The allocator's regions form a well-formed, ordered memory map.
    pub open spec fn wf(self) -> bool {
        regions_wf(self.regions@)
    }

    /// The memory map the allocator was created with.
    pub open spec fn spec_regions(self) -> Seq<MemoryRegion> {
        self.regions@
    }

    /// How many frames have been issued (or skipped) so far.
    pub open spec fn spec_next(self) -> nat {
        self.next as nat
    }

    /// The fixed sequence of usable frames described by the memory map.
    pub open spec fn usable_frames(self) -> Seq<u64> {
        regions_frames(self.regions@)
    }

    /// How many usable frames the allocator can still issue; negative once
    /// the cursor has been advanced past exhaustion.
    pub open spec fn frames_remaining(self) -> int {
        self.usable_frames().len() - self.spec_next()
    }

    /// Create a frame allocator over the given boot memory map, with no
    /// frame issued yet.
    pub fn init(memory_map: Vec<MemoryRegion>) -> (r: Self)
        requires
            regions_wf(memory_map@),
        ensures
            r.wf(),
            r.spec_regions() == memory_map@,
            r.spec_next() == 0,
    {
        BootInfoFrameAllocator { regions: memory_map, next: 0 }
    }

    /// Issue the frame at position `next` of the usable-frame sequence and
    /// advance the cursor; report exhaustion once the cursor has passed the
    /// last usable frame. The cursor advances either way, and no frame is
    /// ever taken back.
    pub fn allocate_frame(&mut self) -> (r: Option<u64>)
        requires
            old(self).wf(),
            old(self).spec_next() < usize::MAX,
        ensures
            final(self).wf(),
            final(self).spec_regions() == old(self).spec_regions(),
            final(self).spec_next() == old(self).spec_next() + 1,
            old(self).spec_next() < old(self).usable_frames().len() ==> r == Some(
                old(self).usable_frames()[old(self).spec_next() as int],
            ),
            old(self).spec_next() >= old(self).usable_frames().len() ==> r is None,
    {
        let n: usize = self.next;
        self.next = n + 1;
        let mut i: usize = 0;
        let mut skipped: u64 = 0;
        while i < self.regions.len()
            invariant
                regions_wf(self.regions@),
                i <= self.regions@.len(),
                skipped == regions_frames(self.regions@.take(i as int)).len(),
                skipped <= n as u64,
                n < usize::MAX,
            decreases self.regions@.len() - i,
        {
            let reg = self.regions[i];
            proof {
                lemma_regions_frames_take_step(self.regions@, i as int);
            }
            if reg.usable {
                let cnt: u64 = (reg.end - reg.start) / 4096;
                if (n as u64) - skipped < cnt {
                    let offset: u64 = (n as u64) - skipped;
                    proof {
                        lemma_regions_frames_index(self.regions@, i as int, offset as int);
                        assert(reg.end - reg.start == 4096 * (cnt as int) + (reg.end - reg.start)
                            % 4096);
                        assert(4096 * (offset as int) <= 4096 * (cnt as int) - 4096);
                    }
                    return Some(reg.start + 4096 * offset);
                }
                skipped = skipped + cnt;
            }
            i = i + 1;
        }
        proof {
            assert(self.regions@.take(self.regions@.len() as int) =~= self.regions@);
        }
        None
    }
}

/// Every frame the allocator can ever issue is distinct from every other:
/// the usable-frame sequence is strictly increasing, so two successful
/// `allocate_frame` calls never yield the same address.
pub proof fn lemma_usable_frames_distinct(a: BootInfoFrameAllocator)
    requires
        a.wf(),
    ensures
        forall|i: int, j: int|
            0 <= i < j < a.usable_frames().len() ==> a.usable_frames()[i] != a.usable_frames()[j],
{
    lemma_regions_frames_increasing(a.spec_regions());
}

/// Whether `frame` is a whole 4096-byte unit inside some usable region of
/// the memory map.
pub open spec fn within_usable_region(rs: Seq<MemoryRegion>, frame: u64) -> bool {
    exists|ri: int|
        0 <= ri < rs.len() && (#[trigger] rs[ri]).usable && rs[ri].start <= frame && frame + 4096
            <= rs[ri].end
}

/// Every frame the allocator can ever issue lies wholly inside some usable
/// region of the memory map; no issued address falls in a reserved region.
pub proof fn lemma_usable_frames_in_usable_regions(a: BootInfoFrameAllocator)
    requires
        a.wf(),
    ensures
        forall|k: int|
            0 <= k < a.usable_frames().len() ==> within_usable_region(
                a.spec_regions(),
                #[trigger] a.usable_frames()[k],
            ),
{
    lemma_regions_frames_in_regions(a.spec_regions());
}

proof fn lemma_region_frames_bounds(r: MemoryRegion)
    requires
        region_wf(r),
    ensures
        forall|k: int|
            0 <= k < region_frames(r).len() ==> r.start <= #[trigger] region_frames(r)[k]
                && region_frames(r)[k] + 4096 <= r.end && region_frames(r)[k] % 4096 == 0,
{
    let cnt = region_frame_count(r) as int;
    assert forall|k: int| 0 <= k < region_frames(r).len() implies r.start
        <= #[trigger] region_frames(r)[k] && region_frames(r)[k] + 4096 <= r.end && region_frames(
        r,
    )[k] % 4096 == 0 by {
        assert(r.end - r.start == 4096 * cnt + (r.end - r.start) % 4096);
        assert(4096 * k <= 4096 * cnt - 4096);
        assert((r.start + 4096 * k) % 4096 == 0) by (nonlinear_arith)
            requires
                r.start % 4096 == 0,
                k >= 0,
        ;
    }
}

/// Every frame address the allocator can ever issue is 4096-byte aligned.
pub proof fn lemma_usable_frames_aligned(a: BootInfoFrameAllocator)
    requires
        a.wf(),
    ensures
        forall|k: int|
            0 <= k < a.usable_frames().len() ==> #[trigger] a.usable_frames()[k] % 4096 == 0,
{
    lemma_regions_frames_aligned(a.spec_regions());
}

proof fn lemma_regions_frames_aligned(rs: Seq<MemoryRegion>)
    requires
        regions_wf(rs),
    ensures
        forall|k: int|
            0 <= k < regions_frames(rs).len() ==> #[trigger] regions_frames(rs)[k] % 4096 == 0,
    decreases rs.len(),
{
    if rs.len() > 0 {
        let chunk = region_frames(rs[0]);
        let rest = rs.drop_first();
        lemma_regions_wf_drop(rs);
        lemma_regions_frames_aligned(rest);
        lemma_region_frames_bounds(rs[0]);
        assert forall|k: int| 0 <= k < regions_frames(rs).len() implies #[trigger] regions_frames(
            rs,
        )[k] % 4096 == 0 by {
            assert(regions_frames(rs) == chunk + regions_frames(rest));
            if k < chunk.len() {
                assert(regions_frames(rs)[k] == chunk[k]);
            } else {
                assert(regions_frames(rs)[k] == regions_frames(rest)[k - chunk.len()]);
            }
        }
    }
}

proof fn lemma_regions_wf_drop(rs: Seq<MemoryRegion>)
    requires
        regions_wf(rs),
        rs.len() > 0,
    ensures
        regions_wf(rs.drop_first()),
{
    let rest = rs.drop_first();
    assert forall|i: int| 0 <= i < rest.len() implies region_wf(#[trigger] rest[i]) by {
        assert(rest[i] == rs[i + 1]);
    }
    assert forall|i: int, j: int| 0 <= i < j < rest.len() implies (#[trigger] rest[i]).end
        <= (#[trigger] rest[j]).start by {
        assert(rest[i] == rs[i + 1]);
        assert(rest[j] == rs[j + 1]);
    }
}

proof fn lemma_regions_frames_lower_bound(rs: Seq<MemoryRegion>)
    requires
        regions_wf(rs),
        rs.len() > 0,
    ensures
        forall|k: int|
            0 <= k < regions_frames(rs).len() ==> #[trigger] regions_frames(rs)[k] >= rs[0].start,
    decreases rs.len(),
{
    let chunk = region_frames(rs[0]);
    let rest = rs.drop_first();
    lemma_region_frames_bounds(rs[0]);
    lemma_regions_wf_drop(rs);
    if rest.len() > 0 {
        lemma_regions_frames_lower_bound(rest);
    }
    assert forall|k: int| 0 <= k < regions_frames(rs).len() implies #[trigger] regions_frames(
        rs,
    )[k] >= rs[0].start by {
        assert(regions_frames(rs) == chunk + regions_frames(rest));
        if k < chunk.len() {
            assert(regions_frames(rs)[k] == chunk[k]);
        } else {
            assert(regions_frames(rs)[k] == regions_frames(rest)[k - chunk.len()]);
            assert(rest.len() > 0);
            assert(rest[0] == rs[1]);
            assert(rs[0].end <= rs[1].start);
            assert(regions_frames(rest)[k - chunk.len()] >= rest[0].start);
        }
    }
}

proof fn lemma_regions_frames_increasing(rs: Seq<MemoryRegion>)
    requires
        regions_wf(rs),
    ensures
        forall|i: int, j: int|
            0 <= i < j < regions_frames(rs).len() ==> #[trigger] regions_frames(rs)[i]
                < #[trigger] regions_frames(rs)[j],
    decreases rs.len(),
{
    if rs.len() > 0 {
        let chunk = region_frames(rs[0]);
        let rest = rs.drop_first();
        lemma_regions_wf_drop(rs);
        lemma_regions_frames_increasing(rest);
        lemma_region_frames_bounds(rs[0]);
        if rest.len() > 0 {
            lemma_regions_frames_lower_bound(rest);
            assert(rs[0].end <= rs[1].start);
            assert(rest[0] == rs[1]);
        }
        assert forall|i: int, j: int| 0 <= i < j < regions_frames(rs).len() implies #[trigger] regions_frames(
            rs,
        )[i] < #[trigger] regions_frames(rs)[j] by {
            if j < chunk.len() {
                assert(chunk[i] == (rs[0].start + 4096 * i) as u64);
                assert(chunk[j] == (rs[0].start + 4096 * j) as u64);
                assert(rs[0].start + 4096 * j + 4096 <= rs[0].end);
            } else if i < chunk.len() {
                assert(regions_frames(rs)[j] == regions_frames(rest)[j - chunk.len()]);
                assert(regions_frames(rest)[j - chunk.len()] >= rest[0].start);
                assert(chunk[i] + 4096 <= rs[0].end);
            } else {
                assert(regions_frames(rs)[i] == regions_frames(rest)[i - chunk.len()]);
                assert(regions_frames(rs)[j] == regions_frames(rest)[j - chunk.len()]);
            }
        }
    }
}

proof fn lemma_regions_frames_in_regions(rs: Seq<MemoryRegion>)
    requires
        regions_wf(rs),
    ensures
        forall|k: int|
            0 <= k < regions_frames(rs).len() ==> within_usable_region(
                rs,
                #[trigger] regions_frames(rs)[k],
            ),
    decreases rs.len(),
{
    if rs.len() > 0 {
        let chunk = region_frames(rs[0]);
        let rest = rs.drop_first();
        lemma_regions_wf_drop(rs);
        lemma_regions_frames_in_regions(rest);
        lemma_region_frames_bounds(rs[0]);
        assert forall|k: int| 0 <= k < regions_frames(rs).len() implies within_usable_region(
            rs,
            #[trigger] regions_frames(rs)[k],
        ) by {
            assert(regions_frames(rs) == chunk + regions_frames(rest));
            if k < chunk.len() {
                assert(regions_frames(rs)[k] == chunk[k]);
                assert(chunk.len() > 0);
                assert(rs[0].usable);
                assert(rs[0].start <= regions_frames(rs)[k] && regions_frames(rs)[k] + 4096
                    <= rs[0].end);
            } else {
                let x = regions_frames(rs)[k];
                let kk = k - chunk.len();
                assert(x == regions_frames(rest)[kk]);
                assert(within_usable_region(rest, x));
                let ri = choose|ri: int|
                    0 <= ri < rest.len() && (#[trigger] rest[ri]).usable && rest[ri].start <= x && x
                        + 4096 <= rest[ri].end;
                assert(rs[ri + 1] == rest[ri]);
            }
        }
    }
}

} // verus!
