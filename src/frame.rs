//! The physical frame source: hands out the 4 KiB frames of the usable
//! regions of the boot memory map, in map order, each at most once.

use vstd::prelude::*;
use x86_64::structures::paging::{PhysFrame, Size4KiB};
use x86_64::PhysAddr;

verus! {

/// Size in bytes of a physical frame.
pub const FRAME_SIZE: u64 = 4096;

/// Addresses at or above this bound are not physical addresses.
pub const PHYS_ADDR_LIMIT: u64 = 0x10_0000_0000_0000;

/// What a boot-reported memory region holds.
#[derive(Clone, Copy, Debug, PartialEq, Eq, Structural)]
pub enum MemoryRegionKind {
    /// Free memory that may be handed out.
    Usable,
    /// Memory that the bootloader uses.
    Bootloader,
    /// A region kind that UEFI reported, by its raw value.
    UnknownUefi(u32),
    /// A region kind that the BIOS reported, by its raw value.
    UnknownBios(u32),
}

/// A boot-reported span of physical memory `[start, end)`.
#[derive(Clone, Copy, Debug, PartialEq, Eq, Structural)]
pub struct MemoryRegion {
    pub start: u64,
    pub end: u64,
    pub kind: MemoryRegionKind,
}

/// Start of the frame that holds `addr`.
pub open spec fn frame_base(addr: int) -> int {
    addr - addr % (FRAME_SIZE as int)
}

/// Number of frame addresses that a region offers: one per 4 KiB step from
/// its start while below its end, and none unless it is usable.
pub open spec fn region_frame_count(r: MemoryRegion) -> nat {
    if r.kind is Usable && r.start < r.end {
        let span = (r.end - r.start) as int;
        (span / (FRAME_SIZE as int) + if span % (FRAME_SIZE as int) == 0 {
            0int
        } else {
            1int
        }) as nat
    } else {
        0
    }
}

/// The frames of one region: the frame of each address `start + k * 4096`
/// below `end`.
pub open spec fn region_frames(r: MemoryRegion) -> Seq<u64> {
    Seq::new(
        region_frame_count(r),
        |k: int| frame_base(r.start + k * (FRAME_SIZE as int)) as u64,
    )
}

/// The usable frames of a memory map, region after region.
pub open spec fn usable_frames(regions: Seq<MemoryRegion>) -> Seq<u64>
    decreases regions.len(),
{
    if regions.len() == 0 {
        Seq::empty()
    } else {
        usable_frames(regions.drop_last()) + region_frames(regions.last())
    }
}

/// The `n`-th usable frame of a memory map, if it has that many.
pub open spec fn frame_at(regions: Seq<MemoryRegion>, n: int) -> Option<u64> {
    if 0 <= n < usable_frames(regions).len() {
        Some(usable_frames(regions)[n])
    } else {
        None
    }
}

/// Every usable region lies below the physical address limit.
pub open spec fn regions_addressable(regions: Seq<MemoryRegion>) -> bool {
    forall|i: int|
        0 <= i < regions.len() && (#[trigger] regions[i]).kind is Usable ==> regions[i].end
            <= PHYS_ADDR_LIMIT
}

/// The usable regions are frame-aligned at their start and come in
/// ascending address order without overlapping.
pub open spec fn regions_ordered(regions: Seq<MemoryRegion>) -> bool {
    &&& forall|i: int|
        0 <= i < regions.len() && (#[trigger] regions[i]).kind is Usable ==> regions[i].start
            % FRAME_SIZE == 0
    &&& forall|i: int, j: int|
        0 <= i < j < regions.len() && (#[trigger] regions[i]).kind is Usable && (
        #[trigger] regions[j]).kind is Usable ==> regions[i].end <= regions[j].start
}

/// Relies on `x86_64::PhysFrame::containing_address` (through
/// `PhysAddr::new`, which panics at or above the limit): the frame start is
/// the address rounded down to 4 KiB.
#[verifier::external_body]
fn frame_start(addr: u64) -> (r: u64)
    requires
        addr < PHYS_ADDR_LIMIT,
    ensures
        r == frame_base(addr as int),
{
    PhysFrame::<Size4KiB>::containing_address(PhysAddr::new(addr)).start_address().as_u64()
}

proof fn lemma_frames_prefix(regions: Seq<MemoryRegion>, j: int)
    requires
        0 <= j <= regions.len(),
    ensures
        usable_frames(regions.take(j)).len() <= usable_frames(regions).len(),
        forall|k: int|
            0 <= k < usable_frames(regions.take(j)).len() ==> usable_frames(regions.take(j))[k]
                == usable_frames(regions)[k],
    decreases regions.len(),
{
    if j < regions.len() {
        lemma_frames_prefix(regions.drop_last(), j);
        assert(regions.drop_last().take(j) =~= regions.take(j));
    } else {
        assert(regions.take(j) =~= regions);
    }
}

/// The `n`-th usable frame of `regions`, walking the usable regions in order.
fn nth_usable_frame(regions: &[MemoryRegion], n: usize) -> (r: Option<u64>)
    requires
        regions_addressable(regions@),
    ensures
        r == frame_at(regions@, n as int),
{
    let mut remaining: u64 = n as u64;
    let mut i: usize = 0;
    while i < regions.len()
        invariant
            i <= regions@.len(),
            regions_addressable(regions@),
            usable_frames(regions@.take(i as int)).len() + remaining == n,
        decreases regions@.len() - i,
    {
        let r = regions[i];
        proof {
            assert(regions@.take(i + 1).drop_last() =~= regions@.take(i as int));
            assert(regions@.take(i + 1).last() == r);
        }
        if r.kind == MemoryRegionKind::Usable && r.start < r.end {
            let span = r.end - r.start;
            let count = span / FRAME_SIZE + if span % FRAME_SIZE == 0 {
                0
            } else {
                1
            };
            assert(count == region_frame_count(r));
            if remaining < count {
                proof {
                    assert(remaining * FRAME_SIZE < span) by (nonlinear_arith)
                        requires
                            remaining < count,
                            count == span / FRAME_SIZE + if span % FRAME_SIZE == 0 {
                                0int
                            } else {
                                1int
                            },
                            span == FRAME_SIZE * (span / FRAME_SIZE) + span % FRAME_SIZE,
                            0 <= span % FRAME_SIZE < FRAME_SIZE,
                            FRAME_SIZE == 4096,
                    ;
                    assert(regions@[i as int].kind is Usable);
                    lemma_frames_prefix(regions@, i + 1);
                    let pre = usable_frames(regions@.take(i as int));
                    assert(usable_frames(regions@.take(i + 1)) == pre + region_frames(r));
                    assert(usable_frames(regions@.take(i + 1))[n as int] == region_frames(
                        r,
                    )[remaining as int]);
                }
                let addr = r.start + remaining * FRAME_SIZE;
                return Some(frame_start(addr));
            }
            remaining = remaining - count;
        }
        i = i + 1;
    }
    proof {
        assert(regions@.take(i as int) =~= regions@);
    }
    None
}

/// Hands out the usable frames of a boot memory map one by one, never
/// taking any back.
pub struct BootInfoFrameAllocator<'a> {
    memory_regions: &'a [MemoryRegion],
    next: usize,
}

impl<'a> BootInfoFrameAllocator<'a> {
    /// The memory map the frames come from.
    pub closed spec fn regions(&self) -> Seq<MemoryRegion> {
        self.memory_regions@
    }

    /// How many frames have been asked for so far.
    pub closed spec fn next(&self) -> nat {
        self.next as nat
    }

    /// A frame source over `memory_regions` that has handed out nothing yet.
    pub fn init(memory_regions: &'a [MemoryRegion]) -> (r: Self)
        ensures
            r.regions() == memory_regions@,
            r.next() == 0,
    {
        BootInfoFrameAllocator { memory_regions, next: 0 }
    }

    /// Whether the cursor can still advance.
    pub fn can_advance(&self) -> (r: bool)
        ensures
            r == (self.next() < usize::MAX),
    {
        self.next < usize::MAX
    }

    /// The next usable frame, by its start address: the frame at the
    /// cursor, which then advances by one. `None` once the usable frames are
    /// used up.
    pub fn allocate_frame(&mut self) -> (r: Option<u64>)
        requires
            regions_addressable(old(self).regions()),
            old(self).next() < usize::MAX,
        ensures
            r == frame_at(old(self).regions(), old(self).next() as int),
            final(self).regions() == old(self).regions(),
            final(self).next() == old(self).next() + 1,
    {
        let frame = nth_usable_frame(self.memory_regions, self.next);
        self.next = self.next + 1;
        frame
    }
}

proof fn lemma_region_frame_bounds(r: MemoryRegion, k: int)
    requires
        0 <= k < region_frame_count(r),
    ensures
        r.start + k * (FRAME_SIZE as int) < r.end,
        region_frames(r)[k] as int == frame_base(r.start + k * (FRAME_SIZE as int)),
        r.start as int - (FRAME_SIZE as int) < region_frames(r)[k] <= r.start + k * (
        FRAME_SIZE as int),
        r.start % FRAME_SIZE == 0 ==> region_frames(r)[k] == r.start + k * (FRAME_SIZE as int),
{
    let span = (r.end - r.start) as int;
    let count = region_frame_count(r) as int;
    assert(k * 4096 < span) by (nonlinear_arith)
        requires
            0 <= k < count,
            count == span / 4096 + if span % 4096 == 0 {
                0int
            } else {
                1int
            },
            span == 4096 * (span / 4096) + span % 4096,
            0 <= span % 4096 < 4096,
    ;
    let a = r.start + k * 4096;
    assert(0 <= k * 4096) by (nonlinear_arith)
        requires
            0 <= k,
    ;
    if r.start % FRAME_SIZE == 0 {
        assert((r.start + k * 4096) % 4096 == 0) by (nonlinear_arith)
            requires
                r.start % 4096 == 0,
        ;
    }
}

proof fn lemma_frames_below(regions: Seq<MemoryRegion>, bound: int)
    requires
        forall|i: int|
            0 <= i < regions.len() && (#[trigger] regions[i]).kind is Usable ==> regions[i].end
                <= bound,
    ensures
        forall|k: int|
            0 <= k < usable_frames(regions).len() ==> usable_frames(regions)[k] < bound,
    decreases regions.len(),
{
    if regions.len() > 0 {
        let rest = regions.drop_last();
        let last = regions.last();
        assert forall|i: int| 0 <= i < rest.len() && (#[trigger] rest[i]).kind is Usable implies rest[i].end
            <= bound by {
            assert(rest[i] == regions[i]);
        }
        lemma_frames_below(rest, bound);
        assert forall|k: int| 0 <= k < usable_frames(regions).len() implies usable_frames(
            regions,
        )[k] < bound by {
            if k >= usable_frames(rest).len() {
                let m = k - usable_frames(rest).len();
                lemma_region_frame_bounds(last, m);
                assert(regions[regions.len() - 1] == last);
            }
        }
    }
}

/// On a memory map whose usable regions are frame-aligned, ascending and
/// disjoint, the usable frames strictly increase in traversal order: as the
/// cursor only moves forward, every frame handed out is new, and each is
/// above the ones before it.
pub proof fn lemma_frames_strictly_increase(regions: Seq<MemoryRegion>, i: int, j: int)
    requires
        regions_ordered(regions),
        0 <= i < j < usable_frames(regions).len(),
    ensures
        usable_frames(regions)[i] < usable_frames(regions)[j],
    decreases regions.len(),
{
    let rest = regions.drop_last();
    let last = regions.last();
    let n = usable_frames(rest).len() as int;
    let k = regions.len() - 1;
    assert(regions[k] == last);
    assert(regions_ordered(rest)) by {
        assert forall|a: int| 0 <= a < rest.len() implies #[trigger] rest[a] == regions[a] by {}
    }
    if j < n {
        lemma_frames_strictly_increase(rest, i, j);
    } else if i >= n {
        lemma_region_frame_bounds(last, i - n);
        lemma_region_frame_bounds(last, j - n);
        assert((i - n) * 4096 < (j - n) * 4096) by (nonlinear_arith)
            requires
                i < j,
        ;
    } else {
        lemma_region_frame_bounds(last, j - n);
        assert forall|a: int| 0 <= a < rest.len() && (#[trigger] rest[a]).kind is Usable implies rest[a].end
            <= last.start by {
            assert(rest[a] == regions[a]);
        }
        lemma_frames_below(rest, last.start as int);
        assert(0 <= (j - n) * 4096) by (nonlinear_arith)
            requires
                j >= n,
        ;
    }
}

} // verus!
