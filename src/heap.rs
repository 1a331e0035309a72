//! The heap region and the plan that backs it with memory: each virtual
//! page of the region gets a fresh frame, then the allocator gets the
//! region.

use crate::locked::Locked;
use crate::frame::{
    frame_at, frame_base, regions_addressable, BootInfoFrameAllocator, FRAME_SIZE,
};
use vstd::prelude::*;
use x86_64::structures::paging::{Page, Size4KiB};
use x86_64::VirtAddr;

verus! {

/// Addresses at or above this bound are outside the lower canonical half
/// of the virtual address space.
pub const VIRT_ADDR_LIMIT: u64 = 0x8000_0000_0000;

/// First address of the upper canonical half of the virtual address space.
pub const UPPER_HALF_START: u64 = 0xFFFF_8000_0000_0000;

/// Whether `addr` is a canonical virtual address: bits 47 to 63 all equal.
pub open spec fn is_canonical(addr: u64) -> bool {
    addr < VIRT_ADDR_LIMIT || UPPER_HALF_START <= addr
}

/// Fewest bytes a heap region may have.
pub const MIN_HEAP_SIZE: usize = 24;

/// An allocator that is handed its heap memory once, before first use.
pub trait Allocator {
    /// Gives the allocator `heap` as the memory it hands out blocks from.
    fn init(&mut self, heap: &'static mut [core::mem::MaybeUninit<u8>])
        requires
            old(heap)@.len() >= MIN_HEAP_SIZE,
    ;
}

/// Where the heap lives and which allocator backs it. The region must not
/// overlap any other mapped or reserved memory; nothing here checks that.
#[verifier::reject_recursive_types(A)]
pub struct HeapRegion<A: Allocator + 'static> {
    pub start: usize,
    pub size: usize,
    pub allocator: &'static Locked<A>,
}

impl<A: Allocator + 'static> HeapRegion<A> {
    /// Describes the heap `[start, start + size)` backed by `allocator`.
    pub fn new(start: usize, size: usize, allocator: &'static Locked<A>) -> (r: Self)
        ensures
            r.start == start,
            r.size == size,
            r.allocator == allocator,
    {
        HeapRegion { start, size, allocator }
    }
}

/// Relies on `x86_64::Page::containing_address` (through `VirtAddr::new`,
/// which keeps canonical addresses as they are): the page start is the
/// address rounded down to 4 KiB.
#[verifier::external_body]
fn page_start(addr: u64) -> (r: u64)
    requires
        is_canonical(addr),
    ensures
        r == frame_base(addr as int),
{
    Page::<Size4KiB>::containing_address(VirtAddr::new(addr)).start_address().as_u64()
}

/// Whether `[start, start + size)` is a heap region the plan can map: not
/// empty, and inside one canonical half of the address space, with its end
/// address `start + size` canonical and within 64 bits.
pub open spec fn valid_region(start: usize, size: usize) -> bool {
    &&& size >= 1
    &&& start + size < VIRT_ADDR_LIMIT || (UPPER_HALF_START <= start && start + size <= u64::MAX)
}

/// Whether the plan can map `[start, start + size)`.
pub fn region_is_mappable(start: usize, size: usize) -> (r: bool)
    ensures
        r == valid_region(start, size),
{
    if size == 0 {
        return false;
    }
    let start = start as u64;
    let size = size as u64;
    if start < VIRT_ADDR_LIMIT {
        size < VIRT_ADDR_LIMIT - start
    } else {
        UPPER_HALF_START <= start && size <= u64::MAX - start
    }
}

/// Number of pages that cover `[start, start + size - 1]`, the last partial
/// page included.
pub open spec fn heap_page_count(start: usize, size: usize) -> int {
    (frame_base(start + size - 1) - frame_base(start as int)) / (FRAME_SIZE as int) + 1
}

/// Start of the `k`-th page of the heap region.
pub open spec fn heap_page(start: usize, k: int) -> int {
    frame_base(start as int) + k * (FRAME_SIZE as int)
}

/// What the caller does next to set up the heap.
pub enum MapStep {
    /// Map the virtual page at `page` to the physical frame at `frame`,
    /// present and writable.
    MapPage { page: u64, frame: u64 },
    /// No frame was left for the next page; pages mapped before stay mapped.
    FrameAllocationFailed,
    /// Every page is mapped: hand the region's memory to the allocator.
    InitAllocator { heap_start: usize, heap_size: usize },
    /// Nothing is left to do.
    Done,
}

/// Progress through mapping a heap region page by page.
pub struct HeapMapping {
    start: usize,
    size: usize,
    first_page: u64,
    page_count: u64,
    mapped: u64,
    stopped: bool,
}

impl HeapMapping {
    /// Start of the heap region.
    pub closed spec fn start(&self) -> usize {
        self.start
    }

    /// Size of the heap region.
    pub closed spec fn size(&self) -> usize {
        self.size
    }

    /// How many pages have been handed out for mapping.
    pub closed spec fn mapped(&self) -> int {
        self.mapped as int
    }

    /// Whether the plan has ended, by failure or by handing the region to
    /// the allocator.
    pub closed spec fn stopped(&self) -> bool {
        self.stopped
    }

    pub closed spec fn wf(&self) -> bool {
        &&& valid_region(self.start, self.size)
        &&& self.first_page == frame_base(self.start as int)
        &&& self.page_count == heap_page_count(self.start, self.size)
        &&& self.mapped <= self.page_count
        &&& heap_page(self.start, self.page_count - 1) == frame_base(self.start + self.size - 1)
    }

    /// A plan for the region `[start, start + size)` with nothing mapped yet.
    pub fn new(start: usize, size: usize) -> (r: Self)
        requires
            valid_region(start, size),
        ensures
            r.wf(),
            r.start() == start,
            r.size() == size,
            r.mapped() == 0,
            !r.stopped(),
    {
        let first_page = page_start(start as u64);
        let last_page = page_start(start as u64 + size as u64 - 1);
        let page_count = (last_page - first_page) / FRAME_SIZE + 1;
        proof {
            let a = start as int;
            let b = start + size - 1;
            assert(frame_base(a) % 4096 == 0 && frame_base(b) % 4096 == 0);
            assert(frame_base(a) <= frame_base(b));
            let d = frame_base(b) - frame_base(a);
            assert(d % 4096 == 0) by (nonlinear_arith)
                requires
                    d == frame_base(b) - frame_base(a),
                    frame_base(a) % 4096 == 0,
                    frame_base(b) % 4096 == 0,
            ;
            assert((d / 4096) * 4096 == d) by (nonlinear_arith)
                requires
                    d % 4096 == 0,
            ;
        }
        HeapMapping { start, size, first_page, page_count, mapped: 0, stopped: false }
    }

    /// The next step. While pages are left, the next page is paired with the
    /// next frame of `frames`, or the plan fails when there is none; after
    /// the last page the allocator gets the region; then nothing is left.
    pub fn step(&mut self, frames: &mut BootInfoFrameAllocator<'_>) -> (r: MapStep)
        requires
            old(self).wf(),
            regions_addressable(old(frames).regions()),
            old(frames).next() < usize::MAX,
        ensures
            final(self).wf(),
            final(self).start() == old(self).start(),
            final(self).size() == old(self).size(),
            final(frames).regions() == old(frames).regions(),
            old(self).stopped() ==> {
                &&& r == MapStep::Done
                &&& *final(self) == *old(self)
                &&& *final(frames) == *old(frames)
            },
            !old(self).stopped() && old(self).mapped() < heap_page_count(
                old(self).start(),
                old(self).size(),
            ) ==> {
                &&& final(frames).next() == old(frames).next() + 1
                &&& match frame_at(old(frames).regions(), old(frames).next() as int) {
                    Some(f) => {
                        &&& r == MapStep::MapPage {
                            page: heap_page(old(self).start(), old(self).mapped()) as u64,
                            frame: f,
                        }
                        &&& final(self).mapped() == old(self).mapped() + 1
                        &&& !final(self).stopped()
                    },
                    None => {
                        &&& r == MapStep::FrameAllocationFailed
                        &&& final(self).mapped() == old(self).mapped()
                        &&& final(self).stopped()
                    },
                }
            },
            !old(self).stopped() && old(self).mapped() == heap_page_count(
                old(self).start(),
                old(self).size(),
            ) ==> {
                &&& r == MapStep::InitAllocator {
                    heap_start: old(self).start(),
                    heap_size: old(self).size(),
                }
                &&& *final(frames) == *old(frames)
                &&& final(self).mapped() == old(self).mapped()
                &&& final(self).stopped()
            },
    {
        if self.stopped {
            return MapStep::Done;
        }
        if self.mapped < self.page_count {
            match frames.allocate_frame() {
                Some(frame) => {
                    proof {
                        let k = self.mapped as int;
                        let n = self.page_count as int;
                        assert(k * 4096 <= (n - 1) * 4096) by (nonlinear_arith)
                            requires
                                k <= n - 1,
                        ;
                        assert(0 <= k * 4096) by (nonlinear_arith)
                            requires
                                0 <= k,
                        ;
                    }
                    let page = self.first_page + self.mapped * FRAME_SIZE;
                    self.mapped = self.mapped + 1;
                    MapStep::MapPage { page, frame }
                },
                None => {
                    self.stopped = true;
                    MapStep::FrameAllocationFailed
                },
            }
        } else {
            self.stopped = true;
            MapStep::InitAllocator { heap_start: self.start, heap_size: self.size }
        }
    }
}

/// The pages of the plan cover the whole region: every byte of
/// `[start, start + size)`, those of a partial last page included, lies in
/// one of the `heap_page_count(start, size)` pages it maps.
pub proof fn lemma_pages_cover_region(start: usize, size: usize, addr: int)
    requires
        valid_region(start, size),
        start <= addr < start + size,
    ensures
        exists|k: int|
            0 <= k < heap_page_count(start, size) && #[trigger] heap_page(start, k) <= addr
                < heap_page(start, k) + FRAME_SIZE,
{
    let last = start + size - 1;
    let fs = frame_base(start as int);
    let fa = frame_base(addr);
    let fl = frame_base(last);
    assert(fs <= fa <= fl && fs % 4096 == 0 && fa % 4096 == 0 && fl % 4096 == 0);
    let d = fa - fs;
    let e = fl - fs;
    assert(d % 4096 == 0 && e % 4096 == 0) by (nonlinear_arith)
        requires
            d == fa - fs,
            e == fl - fs,
            fs % 4096 == 0,
            fa % 4096 == 0,
            fl % 4096 == 0,
    ;
    let k = d / 4096;
    assert(k * 4096 == d) by (nonlinear_arith)
        requires
            d % 4096 == 0,
            k == d / 4096,
    ;
    assert(k <= e / 4096) by {
        vstd::arithmetic::div_mod::lemma_div_is_ordered(d, e, 4096);
    }
    assert(heap_page(start, k) == fa);
    assert(fa <= addr < fa + 4096);
}

} // verus!
