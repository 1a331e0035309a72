use kernel_memory::frame::{BootInfoFrameAllocator, MemoryRegion, MemoryRegionKind};
use kernel_memory::heap::{region_is_mappable, Allocator, HeapMapping, HeapRegion, MapStep};
use kernel_memory::locked::Locked;
use std::mem::MaybeUninit;

const HEAP_START: usize = 0x4444_4444_0000;

fn usable(count: u64) -> Vec<MemoryRegion> {
    vec![MemoryRegion { start: 0x100000, end: 0x100000 + count * 4096, kind: MemoryRegionKind::Usable }]
}

fn run(plan: &mut HeapMapping, frames: &mut BootInfoFrameAllocator<'_>) -> Vec<MapStep> {
    let mut steps = Vec::new();
    loop {
        let s = plan.step(frames);
        let done = matches!(s, MapStep::Done);
        steps.push(s);
        if done {
            return steps;
        }
    }
}

fn is_map(s: &MapStep, page: u64, frame: u64) -> bool {
    matches!(s, MapStep::MapPage { page: p, frame: f } if *p == page && *f == frame)
}

#[test]
fn every_page_gets_a_frame_then_the_allocator_the_region() {
    let regions = usable(8);
    let mut f = BootInfoFrameAllocator::init(&regions);
    let mut plan = HeapMapping::new(HEAP_START, 3 * 4096);
    let steps = run(&mut plan, &mut f);
    assert_eq!(steps.len(), 5);
    for k in 0..3u64 {
        assert!(is_map(&steps[k as usize], HEAP_START as u64 + k * 4096, 0x100000 + k * 4096));
    }
    assert!(matches!(
        steps[3],
        MapStep::InitAllocator { heap_start, heap_size } if heap_start == HEAP_START && heap_size == 3 * 4096
    ));
}

#[test]
fn partial_last_page_is_mapped_too() {
    let regions = usable(8);
    let mut f = BootInfoFrameAllocator::init(&regions);
    let mut plan = HeapMapping::new(HEAP_START + 0x800, 4096 + 1);
    let steps = run(&mut plan, &mut f);
    assert_eq!(steps.len(), 4);
    assert!(is_map(&steps[0], HEAP_START as u64, 0x100000));
    assert!(is_map(&steps[1], HEAP_START as u64 + 4096, 0x101000));
}

#[test]
fn running_out_of_frames_stops_the_plan() {
    let regions = usable(2);
    let mut f = BootInfoFrameAllocator::init(&regions);
    let mut plan = HeapMapping::new(HEAP_START, 4 * 4096);
    let steps = run(&mut plan, &mut f);
    assert_eq!(steps.len(), 4);
    assert!(is_map(&steps[1], HEAP_START as u64 + 4096, 0x101000));
    assert!(matches!(steps[2], MapStep::FrameAllocationFailed));
}

struct Recorder {
    region_len: Option<usize>,
}

impl Allocator for Recorder {
    fn init(&mut self, heap: &'static mut [MaybeUninit<u8>]) {
        self.region_len = Some(heap.len());
    }
}

#[test]
fn heap_region_records_its_bounds_and_allocator() {
    let allocator: &'static Locked<Recorder> =
        Box::leak(Box::new(Locked::new(Recorder { region_len: None })));
    let heap = HeapRegion::new(HEAP_START, 32000 * 1024, allocator);
    assert_eq!(heap.start, HEAP_START);
    assert_eq!(heap.size, 32000 * 1024);
    let mem: &'static mut [MaybeUninit<u8>] =
        Box::leak(vec![MaybeUninit::uninit(); 4096].into_boxed_slice());
    heap.allocator.lock().init(mem);
    assert_eq!(allocator.lock().region_len, Some(4096));
}

#[test]
fn higher_half_heap_is_mapped() {
    let start: usize = 0xFFFF_C000_0000_0800;
    let regions = usable(8);
    let mut f = BootInfoFrameAllocator::init(&regions);
    let mut plan = HeapMapping::new(start, 2 * 4096);
    let steps = run(&mut plan, &mut f);
    assert_eq!(steps.len(), 5);
    assert!(is_map(&steps[0], 0xFFFF_C000_0000_0000, 0x100000));
    assert!(is_map(&steps[2], 0xFFFF_C000_0000_2000, 0x102000));
    assert!(matches!(steps[3], MapStep::InitAllocator { heap_start, heap_size } if heap_start == start && heap_size == 8192));
}

#[test]
fn mappable_regions_stay_in_one_canonical_half() {
    assert!(region_is_mappable(HEAP_START, 32000 * 1024));
    assert!(region_is_mappable(0xFFFF_8000_0000_0000, 4096));
    assert!(region_is_mappable(0xFFFF_FFFF_FFFF_F000, 4095));
    assert!(!region_is_mappable(0xFFFF_FFFF_FFFF_F000, 4096));
    assert!(!region_is_mappable(HEAP_START, 0));
    assert!(!region_is_mappable(0x7FFF_FFFF_F000, 4096));
    assert!(region_is_mappable(0x7FFF_FFFF_F000, 4095));
    assert!(!region_is_mappable(0x8000_0000_0000, 16));
}
