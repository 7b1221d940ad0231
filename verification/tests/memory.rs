//! Frames, page tables, the heap, swap and want of memory.
use iona::memory;
use iona::memory::frame_alloc;
use iona::memory::frame_alloc::{
    phys_frame_from_index, phys_frame_to_index, FrameAllocator, FrameConfig, FrameError,
    MemoryRegion, MemoryRegionKind, PhysFrame, RawBitmapAllocator,
};
use iona::memory::heap;
use iona::memory::heap::{
    page_range_inclusive, HeapAction, HeapConfig, HeapError, HeapEvent, HeapManager, HeapMetrics,
};
use iona::memory::mapper;
use iona::memory::mapper::{
    check_wx, phys_to_virt, virt_to_phys, MapperConfig, MapperError, MapperManager, MapperMetrics,
    PHYS_OFFSET,
};
use iona::memory::oom;
use iona::memory::oom::{
    AllocFailure, Kill, OomConfig, OomError, OomManager, OomMetrics, OomStats,
};
use iona::memory::swap;
use iona::memory::swap::{SwapConfig, SwapError, SwapHandler, SwapManager};
use iona::memory::{total_usable_bytes, MemoryError, MemoryLayout, MemoryManager};
use std::cell::Cell;
use std::collections::HashMap;
use x86_64::structures::paging::PageTableFlags;

// --------------------------------------------------------------------------
// Frames
// --------------------------------------------------------------------------

fn test_allocator() -> FrameAllocator {
    let config = FrameConfig { max_frames: 512, reserve_first_mib: false, ..Default::default() };
    let mut alloc = FrameAllocator::new(config);
    let bitmap = &mut alloc.bitmap;
    bitmap.total_frames = 512;
    for i in 0..512 {
        bitmap.mark_free(i);
    }
    for i in 0..256 {
        bitmap.mark_used(i);
    }
    alloc.initialised = true;
    alloc
}

#[test]
fn frame_alloc_test_alloc_and_free() {
    let mut alloc = test_allocator();
    let frame = alloc.allocate_one().expect("should allocate");
    let idx = phys_frame_to_index(frame);
    assert!(idx >= 256 && idx < 512);
    assert!(alloc.get_ref(frame) == 0 || alloc.get_ref(frame) == 1);
    alloc.free_frame(frame).unwrap();
    assert_eq!(alloc.get_ref(frame), 0);
}

#[test]
fn test_exhaustion() {
    let mut alloc = test_allocator();
    for _ in 0..256 {
        alloc.allocate_one().expect("should allocate");
    }
    assert!(alloc.allocate_one().is_err());
}

#[test]
fn test_free_reuse() {
    let mut alloc = test_allocator();
    let f1 = alloc.allocate_one().unwrap();
    let _f2 = alloc.allocate_one().unwrap();
    alloc.free_frame(f1).unwrap();
    let f3 = alloc.allocate_one().unwrap();
    assert_eq!(phys_frame_to_index(f1), phys_frame_to_index(f3));
}

#[test]
fn test_refcount_basic() {
    let mut alloc = test_allocator();
    alloc.mark_heap_ready();

    let frame = alloc.allocate_one().unwrap();
    assert_eq!(alloc.get_ref(frame), 1);
    alloc.inc_ref(frame).unwrap();
    assert_eq!(alloc.get_ref(frame), 2);
    alloc.free_frame(frame).unwrap();
    assert_eq!(alloc.get_ref(frame), 1);
    alloc.free_frame(frame).unwrap();
    assert_eq!(alloc.get_ref(frame), 0);
}

#[test]
fn frame_alloc_test_stats() {
    let mut alloc = test_allocator();
    let stats = alloc.stats();
    assert_eq!(stats.total_frames, 512);
    assert_eq!(stats.free_frames, 256);
    assert_eq!(stats.used_frames, 256);
    alloc.allocate_one().unwrap();
    let stats2 = alloc.stats();
    assert_eq!(stats2.free_frames, 255);
    assert_eq!(stats2.used_frames, 257);
}

#[test]
fn frame_alloc_test_config_validation() {
    let config = FrameConfig::default();
    assert!(config.validate().is_ok());

    let mut bad = config.clone();
    bad.max_frames = 0;
    assert!(bad.validate().is_err());
}

#[test]
fn frames_come_from_usable_regions() {
    let mut global = None;
    let regions = vec![
        MemoryRegion { start: 0, end: 0x10_0000, kind: MemoryRegionKind::Usable },
        MemoryRegion { start: 0x10_0000, end: 0x10_3000, kind: MemoryRegionKind::Usable },
        MemoryRegion { start: 0x10_3000, end: 0x20_0000, kind: MemoryRegionKind::Bootloader },
    ];
    frame_alloc::init(&mut global, PHYS_OFFSET, &regions);
    let mut a = global.unwrap();
    assert_eq!(frame_alloc::stats(&a), (259, 256));
    let mut seen = Vec::new();
    while let Some(f) = frame_alloc::allocate_one(&mut a) {
        seen.push(f.start);
    }
    assert_eq!(seen, vec![0x10_0000, 0x10_1000, 0x10_2000]);
    assert!(matches!(a.allocate_one(), Err(FrameError::OutOfFrames)));
}

#[test]
fn frames_above_a_gap_are_found() {
    let mut global = None;
    let regions =
        vec![MemoryRegion { start: 0x20_0000, end: 0x40_0000, kind: MemoryRegionKind::Usable }];
    frame_alloc::init(&mut global, PHYS_OFFSET, &regions);
    let mut a = global.unwrap();
    a.mark_heap_ready();
    let first = frame_alloc::allocate_one(&mut a).unwrap();
    assert_eq!(first.start, 0x20_0000);
    let mut n = 1;
    while frame_alloc::allocate_one(&mut a).is_some() {
        n += 1;
    }
    assert_eq!(n, 512);
    a.free_frame(first).unwrap();
    assert_eq!(frame_alloc::allocate_one(&mut a).unwrap().start, 0x20_0000);
}

#[test]
fn frames_that_are_not_set_up_cannot_be_had() {
    let mut a = FrameAllocator::new(FrameConfig::default());
    assert!(a.allocate_one().is_err());
    let mut b = test_allocator();
    b.mark_heap_ready();
    let far = phys_frame_from_index(600);
    assert!(matches!(
        b.free_frame(far),
        Err(FrameError::InvalidFrameIndex { index: 600, max: 512 })
    ));
}

#[test]
fn frame_with_two_references_is_kept() {
    let mut a = test_allocator();
    a.mark_heap_ready();
    let f = frame_alloc::alloc_frame_and_ref(&mut a).unwrap();
    frame_alloc::inc_ref(&mut a, f);
    frame_alloc::dec_ref(&mut a, f);
    assert_eq!(frame_alloc::get_ref(&a, f), 1);
    assert_eq!(a.stats().used_frames, 257);
    frame_alloc::dec_ref(&mut a, f);
    assert_eq!(a.stats().used_frames, 256);
}

#[test]
fn frames_in_words() {
    let a = test_allocator();
    assert_eq!(
        a.stats().describe(),
        "Frame Allocator Statistics:\n  Total frames: 512\n  Free frames: 256\n  Used frames: 256\n  Refcounted frames: 0\n  Total allocations: 0\n  Total frees: 0\n"
    );
    assert_eq!(a.bitmap.describe(), "RawBitmapAllocator: 512 total, 256 used, 256 free");
}

#[test]
fn bitmap_and_indices_agree() {
    assert_eq!(phys_frame_from_index(3), PhysFrame { start: 0x3000 });
    assert_eq!(frame_alloc::frame_to_word_bit(130), (2, 2));
    let mut b = RawBitmapAllocator::with_max_frames(64);
    b.total_frames = 64;
    assert!(!b.is_free(5));
    b.mark_free(5);
    assert!(b.is_free(5));
    assert_eq!(b.alloc_frame(), Some(PhysFrame { start: 0x5000 }));
    assert_eq!(b.alloc_frame(), None);
}

// --------------------------------------------------------------------------
// Heap
// --------------------------------------------------------------------------

#[test]
fn test_page_range_single_page() {
    let start = 0x1000;
    let end = 0x1FFF;
    let range = page_range_inclusive(start, end);
    let pages = range.pages();
    assert_eq!(pages.len(), 1);
    assert_eq!(pages[0], 0x1000);
}

#[test]
fn test_page_range_multiple_pages() {
    let start = 0x0;
    let end = 0x2FFF;
    let range = page_range_inclusive(start, end);
    let pages = range.pages();
    assert_eq!(pages.len(), 3);
}

#[test]
fn heap_test_config_validation() {
    let config = HeapConfig::default();
    assert!(config.validate().is_ok());

    let mut bad = config.clone();
    bad.size = 0;
    assert!(bad.validate().is_err());

    let mut bad2 = config;
    bad2.start = 1;
    assert!(bad2.validate().is_err());
}

#[test]
fn heap_test_metrics() {
    let mut metrics = HeapMetrics::default();
    metrics.inc_pages_mapped(10);
    metrics.inc_failed_allocation();
    let snap = metrics.snapshot();
    assert_eq!(snap.total_pages_mapped, 10);
    assert_eq!(snap.total_bytes_mapped, 10 * 4096);
    assert_eq!(snap.failed_allocations, 1);
}

fn small_heap() -> HeapManager {
    HeapManager::new(HeapConfig::default().with_size(3 * 4096))
}

#[test]
fn heap_maps_every_page() {
    let mut m = small_heap();
    let mut action = m.init(HeapEvent::Start);
    let mut next = 0x10_0000;
    let mut mapped = Vec::new();
    loop {
        action = match action {
            HeapAction::TakeFrame => {
                next += 0x1000;
                m.init(HeapEvent::Frame(Some(next)))
            }
            HeapAction::MapPage { page, frame, flags } => {
                assert_eq!(flags, heap::HEAP_FLAGS);
                mapped.push((page, frame));
                m.init(HeapEvent::Mapped(true))
            }
            HeapAction::Ready { start, size } => {
                assert_eq!((start, size), (heap::HEAP_START, 3 * 4096));
                break;
            }
            HeapAction::Fail { .. } => panic!("should succeed"),
        };
    }
    assert_eq!(
        mapped,
        vec![
            (heap::HEAP_START, 0x10_1000),
            (heap::HEAP_START + 0x1000, 0x10_2000),
            (heap::HEAP_START + 0x2000, 0x10_3000)
        ]
    );
    assert!(m.is_initialised());
    assert_eq!(m.stats().total_pages, 3);
    match m.init(HeapEvent::Start) {
        HeapAction::Fail { error, unmap } => {
            assert_eq!(error, HeapError::AlreadyInitialised);
            assert!(unmap.is_empty());
        }
        _ => panic!("should fail"),
    }
}

#[test]
fn heap_flags_that_do_not_exist_are_dropped() {
    let config = HeapConfig { flags: heap::HEAP_FLAGS | 1 << 20, ..HeapConfig::default() };
    let mut m = HeapManager::new(config);
    m.init(HeapEvent::Start);
    match m.init(HeapEvent::Frame(Some(0x5000))) {
        HeapAction::MapPage { flags, .. } => assert_eq!(flags, heap::HEAP_FLAGS),
        _ => panic!("should map"),
    }
}

#[test]
fn heap_that_fails_takes_its_pages_back() {
    let mut m = small_heap();
    assert!(matches!(m.init(HeapEvent::Start), HeapAction::TakeFrame));
    m.init(HeapEvent::Frame(Some(0x5000)));
    m.init(HeapEvent::Mapped(true));
    match m.init(HeapEvent::Frame(None)) {
        HeapAction::Fail { error, unmap } => {
            assert_eq!(error, HeapError::FrameAllocationFailed);
            assert!(unmap.is_empty());
        }
        _ => panic!("should fail"),
    }
    assert!(!m.is_initialised());
    let mut m = small_heap();
    m.init(HeapEvent::Start);
    m.init(HeapEvent::Frame(Some(0x5000)));
    m.init(HeapEvent::Mapped(true));
    m.init(HeapEvent::Frame(Some(0x6000)));
    match m.init(HeapEvent::Mapped(false)) {
        HeapAction::Fail { error: HeapError::PageMapFailed { addr, .. }, unmap } => {
            assert_eq!(addr, heap::HEAP_START + 0x1000);
            assert_eq!(unmap, vec![heap::HEAP_START]);
        }
        _ => panic!("should fail"),
    }
    assert_eq!(m.metrics_snapshot().failed_mappings, 1);
}

// --------------------------------------------------------------------------
// Mapper
// --------------------------------------------------------------------------

#[test]
fn test_phys_to_virt_conversion() {
    assert_eq!(phys_to_virt(0), PHYS_OFFSET);
    assert_eq!(phys_to_virt(4096), PHYS_OFFSET + 4096);
}

#[test]
fn test_virt_to_phys_in_range() {
    assert_eq!(virt_to_phys(PHYS_OFFSET), Some(0));
    assert_eq!(virt_to_phys(PHYS_OFFSET + 0x1000), Some(0x1000));
}

#[test]
fn test_virt_to_phys_out_of_range() {
    assert_eq!(virt_to_phys(0), None);
    assert_eq!(virt_to_phys(PHYS_OFFSET - 1), None);
}

#[test]
fn test_check_wx_safe_flags() {
    let flags = PageTableFlags::PRESENT | PageTableFlags::WRITABLE | PageTableFlags::NO_EXECUTE;
    assert!(check_wx(flags.bits(), &MapperConfig::default()).is_ok());

    let flags2 = PageTableFlags::PRESENT;
    assert!(check_wx(flags2.bits(), &MapperConfig::default()).is_ok());
}

#[test]
fn test_check_wx_violation() {
    let flags = PageTableFlags::PRESENT | PageTableFlags::WRITABLE;
    assert!(check_wx(flags.bits(), &MapperConfig::default()).is_err());
}

#[test]
fn mapper_test_config_validation() {
    let config = MapperConfig::default();
    assert!(config.validate().is_ok());

    let mut bad = config.clone();
    bad.physical_offset = 0;
    assert!(bad.validate().is_err());
}

#[test]
fn mapper_test_metrics() {
    let mut metrics = MapperMetrics::default();
    metrics.inc_mapped();
    metrics.inc_unmapped();
    let snap = metrics.snapshot();
    assert_eq!(snap.pages_mapped, 1);
    assert_eq!(snap.pages_unmapped, 1);
}

#[test]
fn mapper_flags_are_those_of_the_processor() {
    let rw = PageTableFlags::PRESENT | PageTableFlags::WRITABLE | PageTableFlags::NO_EXECUTE;
    assert_eq!(mapper::KERNEL_FLAGS, rw.bits());
    assert_eq!(mapper::USER_FLAGS, (rw | PageTableFlags::USER_ACCESSIBLE).bits());
    assert!(check_wx(mapper::KERNEL_FLAGS, &MapperConfig::default()).is_ok());
    assert!(check_wx(mapper::USER_FLAGS, &MapperConfig::default()).is_ok());
}

#[test]
fn mapper_maps_a_whole_range_or_says_where_it_stopped() {
    let mut m = MapperManager::default();
    let done = Cell::new(0);
    let map = |page: u64, frame: u64, flags: u64| {
        assert_eq!(page - 0x40_0000, frame - 0x10_0000);
        assert_eq!(flags, mapper::KERNEL_FLAGS);
        done.set(done.get() + 1);
        done.get() < 3
    };
    match m.map_range(&map, 0x40_0000, 0x10_0000, 5, mapper::KERNEL_FLAGS) {
        Err(MapperError::MapFailed { page, .. }) => assert_eq!(page, 0x40_2000),
        _ => panic!("should fail"),
    }
    assert_eq!(m.metrics_snapshot().pages_mapped, 2);
    assert_eq!(m.metrics_snapshot().failed_maps, 1);
    let all = |_: u64, _: u64, _: u64| true;
    assert!(m.map_range(&all, 0x40_0000, 0x10_0000, 5, mapper::KERNEL_FLAGS).is_ok());
    assert!(matches!(
        m.map_page(&all, 0x40_0000, 0, mapper::WRITABLE),
        Err(MapperError::WxViolation)
    ));
}

#[test]
fn mapper_unmaps_and_translates() {
    let mut m = MapperManager::default();
    assert_eq!(m.unmap_page(|p| Some(p + 1), 0x1000).unwrap(), 0x1001);
    assert!(matches!(
        m.unmap_page(|_| None, 0x1000),
        Err(MapperError::UnmapFailed { page: 0x1000, .. })
    ));
    assert_eq!(m.translate_addr(|v| Some(v ^ 1), 6), Some(7));
    assert_eq!(m.metrics_snapshot().translations, 1);
    let mut global = None;
    mapper::init(&mut global);
    assert_eq!(mapper::table_address(global.unwrap().config(), 0x3000), PHYS_OFFSET + 0x3000);
}

// --------------------------------------------------------------------------
// Want of memory
// --------------------------------------------------------------------------

#[test]
fn oom_test_config_validation() {
    let config = OomConfig::default();
    assert!(config.validate().is_ok());

    let mut bad = config.clone();
    bad.max_retries = 0;
    assert!(bad.validate().is_err());

    let mut bad2 = config;
    bad2.min_free_threshold_pages = 0;
    assert!(bad2.validate().is_err());
}

#[test]
fn oom_test_metrics() {
    let mut metrics = OomMetrics::default();
    metrics.inc_events();
    metrics.inc_victims();
    metrics.add_freed_pages(10);
    let snap = metrics.snapshot();
    assert_eq!(snap.events, 1);
    assert_eq!(snap.victims, 1);
    assert_eq!(snap.freed_pages, 10);
}

#[test]
fn oom_kills_until_enough_is_free() {
    let config = OomConfig::default();
    let mut metrics = OomMetrics::default();
    let free = Cell::new(10usize);
    let kill = || {
        let before = free.get();
        free.set(before + 4);
        Kill { tid: before as u64, before_free: before, after_free: before + 4 }
    };
    let tasks = || 5usize;
    let v = oom::kill_many(&config, &mut metrics, 8, &tasks, &kill).unwrap();
    assert_eq!(v.len(), 2);
    assert_eq!(v[0].freed_pages + v[1].freed_pages, 8);
    assert_eq!(metrics.freed_pages, 8);
    let stuck = || Kill { tid: 1, before_free: 3, after_free: 3 };
    assert_eq!(
        oom::kill_many(&config, &mut metrics, 8, &tasks, &stuck).unwrap_err(),
        OomError::Exhausted { attempts: 4 }
    );
    let alone = || 1usize;
    assert!(oom::kill_many(&config, &mut metrics, 8, &alone, &stuck).is_err());
    assert_eq!(oom::kill_one(&config, &mut metrics, 1, &stuck).unwrap_err(), OomError::NoVictims);
}

#[test]
fn oom_answers_a_failed_allocation() {
    let mut m = OomManager::default();
    assert!(matches!(m.handle_alloc_error(4096, 100), AllocFailure::Inconsistent(_)));
    match oom::handle_alloc_error(&mut m, 8192, 0) {
        AllocFailure::Kill { needed_pages, .. } => assert_eq!(needed_pages, 2),
        _ => panic!("should kill"),
    }
    assert_eq!(m.stats().total_events, 2);
    let kill = || Kill { tid: 9, before_free: 0, after_free: 5 };
    oom::oom_kill(&mut m, 4, &kill);
    assert_eq!(m.metrics_snapshot().victims, 1);
}

#[test]
fn oom_statistics_in_words() {
    let s = OomStats {
        total_events: 1,
        total_victims: 2,
        total_freed_pages: 3,
        failed_attempts: 4,
        panics: 5,
    };
    assert_eq!(
        s.describe(),
        "OOM Statistics:\n  Total events: 1\n  Total victims: 2\n  Total freed pages: 3\n  Failed attempts: 4\n  Panics: 5\n"
    );
}

// --------------------------------------------------------------------------
// Swap
// --------------------------------------------------------------------------

/// Files of the swap, by path.
type Disk = HashMap<String, Vec<u8>>;

fn reset_swap() -> (SwapHandler, Disk) {
    (SwapHandler::new(SwapConfig::default()), HashMap::new())
}

fn swap_out(h: &mut SwapHandler, disk: &mut Disk, vaddr: u64, data: &[u8; 4096]) -> bool {
    match h.swap_out(vaddr) {
        Ok(slot) => {
            disk.insert(slot.path.clone(), data.to_vec());
            h.swap_written(vaddr, slot, true).is_ok()
        }
        Err(_) => false,
    }
}

fn swap_in(h: &mut SwapHandler, disk: &mut Disk, vaddr: u64, out: &mut [u8; 4096]) -> bool {
    match h.swap_in(vaddr) {
        Ok(slot) => {
            let data = disk.remove(&slot.path);
            h.swap_read(vaddr, slot, data.as_deref(), out).is_ok()
        }
        Err(_) => false,
    }
}

#[test]
fn test_swap_out_in_basic() {
    let (mut h, mut disk) = reset_swap();
    let vaddr = 0x1000;
    let data = [0xABu8; 4096];
    assert!(swap_out(&mut h, &mut disk, vaddr, &data));
    assert!(swap::is_swapped(&h, vaddr));

    let mut restored = [0u8; 4096];
    assert!(swap_in(&mut h, &mut disk, vaddr, &mut restored));
    assert_eq!(restored, data);
    assert!(!swap::is_swapped(&h, vaddr));
}

#[test]
fn test_swap_out_full() {
    let (mut h, mut disk) = reset_swap();
    let max = 16384;
    for i in 0..max {
        let v = 0x1000 + (i as u64) * 0x1000;
        let data = [i as u8; 4096];
        assert!(swap_out(&mut h, &mut disk, v, &data), "swap_out failed at page {}", i);
    }
    let v = 0x1000 + (max as u64) * 0x1000;
    let data = [0xFFu8; 4096];
    assert!(!swap_out(&mut h, &mut disk, v, &data));
}

#[test]
fn test_evict_range() {
    let (mut h, mut disk) = reset_swap();
    let v1 = 0x1000;
    let v2 = 0x2000;
    let v3 = 0x5000;
    let data = [0x22u8; 4096];

    swap_out(&mut h, &mut disk, v1, &data);
    swap_out(&mut h, &mut disk, v2, &data);
    swap_out(&mut h, &mut disk, v3, &data);

    let freed = swap::evict_range(&mut h, 0x1000, 0x3000);
    assert_eq!(freed.len(), 2);
    assert!(!swap::is_swapped(&h, v1));
    assert!(!swap::is_swapped(&h, v2));
    assert!(swap::is_swapped(&h, v3));
}

fn stress_test(h: &mut SwapHandler, disk: &mut Disk, n_pages: usize) -> bool {
    let n = h.stress_pages(n_pages);
    for i in 0..n {
        let mut page = [0u8; 4096];
        page.copy_from_slice(&swap::stress_page(i));
        if !swap_out(h, disk, swap::stress_address(i), &page) {
            return false;
        }
    }
    for i in 0..n {
        let mut restored = [0u8; 4096];
        if !swap_in(h, disk, swap::stress_address(i), &mut restored) {
            return false;
        }
        if !swap::stress_matches(i, &restored) {
            return false;
        }
    }
    true
}

#[test]
fn test_stress_test() {
    let (mut h, mut disk) = reset_swap();
    assert!(stress_test(&mut h, &mut disk, 100));
}

#[test]
fn swap_test_config_validation() {
    let config = SwapConfig::default();
    assert!(config.validate().is_ok());

    let mut bad = config.clone();
    bad.max_pages = 0;
    assert!(bad.validate().is_err());

    let mut bad2 = config;
    bad2.path_prefix = "".to_string();
    assert!(bad2.validate().is_err());
}

#[test]
fn swap_refuses_what_it_cannot_do() {
    let (mut h, mut disk) = reset_swap();
    assert!(matches!(h.swap_out(0x1001), Err(SwapError::UnalignedAddress { addr: 0x1001 })));
    assert!(matches!(h.swap_in(0x1000), Err(SwapError::NotSwapped { addr: 0x1000 })));
    assert!(swap_out(&mut h, &mut disk, 0x1000, &[1; 4096]));
    assert!(matches!(h.swap_out(0x1000), Err(SwapError::AlreadySwapped { addr: 0x1000 })));
    let mut tiny = SwapHandler::new(SwapConfig::default().with_max_pages(1));
    let slot = tiny.swap_out(0x1000).unwrap();
    assert_eq!(slot.path, "/swap/page-000000");
    match tiny.swap_written(0x1000, slot, false) {
        Err(SwapError::Io { path }) => assert_eq!(path, "/swap/page-000000"),
        _ => panic!("should fail"),
    }
    assert_eq!(tiny.stats().used_pages, 0);
    assert!(swap_out(&mut tiny, &mut disk, 0x1000, &[1; 4096]));
    assert!(matches!(tiny.swap_out(0x2000), Err(SwapError::Full { max: 1 })));
}

#[test]
fn swapped_page_comes_back_after_others() {
    let (mut h, mut disk) = reset_swap();
    let page = |n: u8| [n; 4096];
    assert!(swap_out(&mut h, &mut disk, 0x5000, &page(5)));
    assert!(swap_out(&mut h, &mut disk, 0x1000, &page(1)));
    assert!(swap_out(&mut h, &mut disk, 0x9000, &page(9)));
    let mut out = [0u8; 4096];
    assert!(swap_in(&mut h, &mut disk, 0x1000, &mut out));
    assert!(swap_out(&mut h, &mut disk, 0x2000, &page(2)));
    let used = h.stats().used_pages;
    assert_eq!(used, 3);
    assert!(swap_in(&mut h, &mut disk, 0x5000, &mut out));
    assert_eq!(out, page(5));
    assert!(!h.is_swapped(0x5000));
    assert_eq!(h.stats().used_pages, used - 1);
    assert!(matches!(h.swap_in(0x5000), Err(SwapError::NotSwapped { addr: 0x5000 })));
    assert!(h.is_swapped(0x2000) && h.is_swapped(0x9000));
}

#[test]
fn swap_keeps_a_page_that_cannot_be_read() {
    let (mut h, mut disk) = reset_swap();
    assert!(swap_out(&mut h, &mut disk, 0x3000, &[7; 4096]));
    disk.clear();
    let mut out = [9u8; 4096];
    assert!(!swap_in(&mut h, &mut disk, 0x3000, &mut out));
    assert!(h.is_swapped(0x3000));
    assert_eq!(out, [9u8; 4096]);
    assert_eq!(h.metrics().io_errors, 1);
}

#[test]
fn swap_uses_files_again_but_never_twice() {
    let (mut h, mut disk) = reset_swap();
    assert!(swap_out(&mut h, &mut disk, 0x1000, &[1; 4096]));
    assert!(swap_out(&mut h, &mut disk, 0x2000, &[2; 4096]));
    let mut out = [0u8; 4096];
    assert!(swap_in(&mut h, &mut disk, 0x1000, &mut out));
    assert!(swap_out(&mut h, &mut disk, 0x3000, &[3; 4096]));
    assert_eq!(h.table.entries[1].slot.path, "/swap/page-000000");
    assert_eq!(swap::stats(&h), (16384, 2));
    assert_eq!(h.stats().describe(), "Swap Statistics:\n  Total pages: 16384\n  Used pages: 2\n  Free pages: 16382\n  Swaps out: 3\n  Swaps in: 1\n  Evictions: 0\n");
    assert_eq!(SwapManager::default().init(), 64);
    assert_eq!(swap::reclaim_pages(&mut h, 512), 0);
}

// --------------------------------------------------------------------------
// All of it
// --------------------------------------------------------------------------

fn fake_region(start: u64, end: u64, usable: bool) -> MemoryRegion {
    MemoryRegion {
        start,
        end,
        kind: if usable { MemoryRegionKind::Usable } else { MemoryRegionKind::Reserved },
    }
}

#[test]
fn test_total_usable_bytes() {
    let regions = vec![
        fake_region(0, 4096, true),
        fake_region(4096, 8192, false),
        fake_region(8192, 16384, true),
    ];
    assert_eq!(total_usable_bytes(&regions), 12 * 1024);
}

#[test]
fn test_no_usable_regions() {
    let regions = vec![fake_region(0, 4096, false), fake_region(4096, 8192, false)];
    assert_eq!(total_usable_bytes(&regions), 0);
}

#[test]
fn memory_is_set_up_once() {
    let regions = vec![fake_region(0, 0x40_0000, true)];
    let l = MemoryLayout::from_regions(&regions);
    assert_eq!((l.usable_start, l.usable_end, l.total_usable, l.frame_count), (0, 0x40_0000, 0x40_0000, 1024));
    let mut m = MemoryManager::default();
    let mut frames = None;
    assert!(m.init(&mut frames, PHYS_OFFSET, &regions));
    let mut f = frames.unwrap();
    m.heap_ready(&mut f);
    assert!(m.is_initialised());
    assert_eq!(f.stats().total_frames, 1024);
    let mut again = Some(f);
    assert!(!m.init(&mut again, PHYS_OFFSET, &regions));
}

#[test]
fn memory_errors_keep_their_source() {
    assert!(matches!(MemoryError::from(FrameError::OutOfFrames), MemoryError::Frame(FrameError::OutOfFrames)));
    assert!(matches!(MemoryError::from(HeapError::ZeroSize), MemoryError::Heap(HeapError::ZeroSize)));
    assert!(matches!(MemoryError::from(MapperError::WxViolation), MemoryError::Mapper(MapperError::WxViolation)));
    assert_eq!(memory::HEAP_SIZE, 0x80_0000);
}
