//! Pages, objects, mappings and shared memory.
use iona::memory::frame_alloc::{FrameAllocator, FrameConfig};
use iona::mm;
use iona::mm::buddy;
use iona::mm::buddy::{BuddyAllocator, BuddyConfig, BuddyError, BuddyManager, BuddyResult};
use iona::mm::mmap;
use iona::mm::mmap::{
    MmapBacking, MmapConfig, MmapError, MmapManager, MmapRegion, MAP_ANON, MAP_FIXED, MAP_PRIVATE,
    MAP_SHARED, PROT_READ, PROT_WRITE,
};
use iona::mm::shm;
use iona::mm::shm::table;
use iona::mm::shm::{
    ShmConfig, ShmError, ShmManager, ShmPerm, IPC_CREAT, IPC_EXCL, IPC_PRIVATE, IPC_RMID, IPC_SET,
    IPC_STAT, SHM_LOCK, SHM_R, SHM_W,
};
use iona::mm::slab;
use iona::mm::slab::{SlabCache, SlabConfig, SlabError, SlabManager, SlabResult, SlabStats};
use iona::mm::{
    invoke_oom_handler, set_oom_handler, AllocStep, MemPressure, MemStats, MemoryError,
    MemoryManager, MemoryPressureThresholds, OomHook,
};
use std::sync::atomic::{AtomicBool, AtomicU64, Ordering};

// --------------------------------------------------------------------------
// Pages
// --------------------------------------------------------------------------

#[test]
fn test_add_region() {
    let config = BuddyConfig::default();
    let mut alloc = BuddyAllocator::new(&config);
    alloc.add_region(0x1000, 1024);
    assert_eq!(alloc.total_pages(), 1024);
    assert_eq!(alloc.free_pages(), 1024);
}

#[test]
fn mod_test_alloc_and_free() -> BuddyResult<()> {
    let config = BuddyConfig::default();
    let mut alloc = BuddyAllocator::new(&config);
    alloc.add_region(0x1000, 1024);

    let addr = alloc.allocate(2)?;
    assert_eq!(alloc.free_pages(), 1024 - 4);

    alloc.free(addr, 2)?;
    assert_eq!(alloc.free_pages(), 1024);
    Ok(())
}

#[test]
fn test_largest_free_order() {
    let config = BuddyConfig::default();
    let mut alloc = BuddyAllocator::new(&config);
    alloc.add_region(0x1000, 1024);

    assert_eq!(alloc.largest_free_order(), Some(10));
    let addr = alloc.allocate(10).unwrap();
    assert_eq!(alloc.largest_free_order(), None);
    alloc.free(addr, 10).unwrap();
    assert_eq!(alloc.largest_free_order(), Some(10));
}

#[test]
fn test_alloc_failure() {
    let config = BuddyConfig::default();
    let mut alloc = BuddyAllocator::new(&config);
    alloc.add_region(0x1000, 1);

    assert!(alloc.allocate(0).is_ok());
    assert!(alloc.allocate(0).is_err());
}

#[test]
fn test_double_free() {
    let config = BuddyConfig::default();
    let mut alloc = BuddyAllocator::new(&config);
    alloc.add_region(0x1000, 8);

    let addr = alloc.allocate(0).unwrap();
    alloc.free(addr, 0).unwrap();
    assert!(alloc.free(addr, 0).is_err());
}

#[test]
fn test_coalescing() -> BuddyResult<()> {
    let config = BuddyConfig::default();
    let mut alloc = BuddyAllocator::new(&config);
    alloc.add_region(0x1000, 8);

    let a = alloc.allocate(0)?;
    let b = alloc.allocate(0)?;
    let c = alloc.allocate(0)?;
    let d = alloc.allocate(0)?;

    alloc.free(d, 0)?;
    alloc.free(c, 0)?;
    alloc.free(b, 0)?;
    alloc.free(a, 0)?;

    assert_eq!(alloc.free_pages(), 8);
    assert_eq!(alloc.largest_free_order(), Some(3));
    Ok(())
}

#[test]
fn mod_test_stats() {
    let config = BuddyConfig::default();
    let mut alloc = BuddyAllocator::new(&config);
    alloc.add_region(0x1000, 1024);

    let stats = alloc.stats();
    assert_eq!(stats.total_pages, 1024);
    assert_eq!(stats.free_pages, 1024);
    assert_eq!(stats.allocated_pages, 0);
    assert_eq!(stats.largest_free_order, Some(10));

    alloc.allocate(2).unwrap();
    let stats2 = alloc.stats();
    assert_eq!(stats2.allocated_pages, 4);
    assert_eq!(stats2.free_pages, 1020);
}

#[test]
fn test_reset() {
    let config = BuddyConfig::default();
    let mut alloc = BuddyAllocator::new(&config);
    alloc.add_region(0x1000, 1024);
    alloc.reset();
    assert_eq!(alloc.total_pages(), 0);
    assert_eq!(alloc.free_pages(), 0);
}

#[test]
fn test_manager() -> BuddyResult<()> {
    let config = BuddyConfig::default();
    let mut manager = BuddyManager::new(config);
    manager.init(0x1000, 1024);
    assert!(manager.is_initialised());

    let addr = manager.alloc_pages(2)?;
    assert_eq!(manager.free_page_count(), 1024 - 4);
    manager.free_pages(addr, 2)?;
    assert_eq!(manager.free_page_count(), 1024);

    let stats = manager.stats();
    assert_eq!(stats.total_pages, 1024);
    assert_eq!(stats.free_pages, 1024);
    Ok(())
}

#[test]
fn test_manager_metrics() -> BuddyResult<()> {
    let config = BuddyConfig::default();
    let mut manager = BuddyManager::new(config);
    manager.init(0x1000, 1024);

    let addr = manager.alloc_pages(2)?;
    manager.free_pages(addr, 2)?;

    let snap = manager.metrics_snapshot();
    assert_eq!(snap.allocations, 1);
    assert_eq!(snap.frees, 1);
    assert_eq!(snap.total_pages_allocated, 4);
    assert_eq!(snap.total_pages_freed, 4);
    Ok(())
}

#[test]
fn test_invalid_order() {
    let config = BuddyConfig { max_order: 3, ..Default::default() };
    let mut alloc = BuddyAllocator::new(&config);
    alloc.add_region(0x1000, 8);

    assert!(alloc.allocate(3).is_err());
    assert!(alloc.free(0x1000, 3).is_err());
}

#[test]
fn test_full_stats() {
    let config = BuddyConfig::default();
    let mut manager = BuddyManager::new(config);
    manager.init(0x1000, 1024);

    let stats = buddy::full_stats(&manager);
    assert_eq!(stats.total_pages, 1024);
    assert_eq!(stats.free_pages, 1024);
}

#[test]
fn test_free_list_count() {
    let config = BuddyConfig::default();
    let mut alloc = BuddyAllocator::new(&config);
    alloc.add_region(0x1000, 1024);
    assert_eq!(alloc.free_list_count(), 1);

    alloc.allocate(10).unwrap();
    assert_eq!(alloc.free_list_count(), 0);
}

#[test]
fn blocks_do_not_overlap() {
    let mut alloc = BuddyAllocator::new(&BuddyConfig::default());
    alloc.add_region(0x10_0000, 64);
    let mut taken: Vec<(u64, u64)> = Vec::new();
    for order in [0, 2, 1, 3, 0, 2] {
        let a = alloc.allocate(order).unwrap();
        let end = a + (4096 << order);
        for &(b, e) in &taken {
            assert!(end <= b || e <= a);
        }
        taken.push((a, end));
    }
    assert_eq!(alloc.free_pages(), 64 - 1 - 4 - 2 - 8 - 1 - 4);
}

#[test]
fn pages_that_were_never_given_are_not_taken() {
    let mut alloc = BuddyAllocator::new(&BuddyConfig::default());
    alloc.add_region(0x10_0000, 4);
    assert!(matches!(alloc.free(0x10_0000, 0), Err(BuddyError::DoubleFree { .. })));
    assert!(matches!(
        alloc.allocate(11),
        Err(BuddyError::InvalidOrder { order: 11, max_order: 10 })
    ));
    assert!(matches!(alloc.allocate(5), Err(BuddyError::AllocationFailed { order: 5 })));
}

#[test]
fn kernel_wide_pages() {
    let mut global = None;
    buddy::init(&mut global, 0x20_0000, 16);
    let mut m = global.unwrap();
    let a = buddy::alloc_page(&mut m).unwrap();
    assert_eq!(buddy::stats(&m), (16, 15));
    buddy::free_page(&mut m, a);
    assert_eq!(buddy::stats(&m), (16, 16));
    assert!(buddy::alloc_pages(&mut m, 9).is_none());
    assert_eq!(m.metrics_snapshot().allocation_failures, 1);
}

// --------------------------------------------------------------------------
// Mappings
// --------------------------------------------------------------------------

fn region(base: u64, length: usize, prot: u32) -> MmapRegion {
    MmapRegion {
        base,
        length,
        prot,
        flags: MAP_SHARED,
        backing: MmapBacking::Anonymous,
        dirty_mask: 0,
        populated: false,
    }
}

#[test]
fn test_region_contains() {
    let region = region(0x1000, 0x1000, PROT_READ);
    assert!(region.contains(0x1000));
    assert!(region.contains(0x1FFF));
    assert!(!region.contains(0x0FFF));
    assert!(!region.contains(0x2000));
}

#[test]
fn test_page_index() {
    let region = region(0x1000, 0x3000, PROT_READ);
    assert_eq!(region.page_index(0x1000), 0);
    assert_eq!(region.page_index(0x1FFF), 0);
    assert_eq!(region.page_index(0x2000), 1);
    assert_eq!(region.page_index(0x3000), 2);
}

#[test]
fn test_dirty_marking() {
    let mut region = region(0x1000, 0x3000, PROT_READ | PROT_WRITE);
    region.mark_dirty(0x1000);
    assert!(region.is_dirty(0));
    assert!(!region.is_dirty(1));
    region.mark_dirty(0x2000);
    assert!(region.is_dirty(1));
    region.clear_dirty();
    assert!(!region.is_dirty(0));
    assert!(!region.is_dirty(1));
}

#[test]
fn mmap_test_config_validation() {
    let config = MmapConfig::default();
    assert!(config.validate().is_ok());

    let bad = MmapConfig { max_regions_per_task: 0, ..Default::default() };
    assert!(bad.validate().is_err());
}

#[test]
fn mapped_memory_is_found_until_it_is_unmapped() {
    let mut m = MmapManager::default();
    let a = m.mmap_anon(1, 5000, PROT_READ, MAP_PRIVATE | MAP_ANON, 0).unwrap();
    assert_eq!(a, mmap::USER_START);
    let page = m.handle_page_fault(1, a + 4096, None).unwrap();
    assert_eq!(page, vec![0u8; 4096]);
    assert!(m.handle_page_fault(2, a, None).is_none());
    let mut writes = Vec::new();
    assert_eq!(m.munmap(1, a, 8192, &mut writes).unwrap().len(), 1);
    assert!(m.handle_page_fault(1, a, None).is_none());
    assert!(matches!(m.munmap(1, a, 8192, &mut writes), Err(MmapError::RegionNotFound { .. })));
    assert!(writes.is_empty());
}

#[test]
fn unmapping_writes_shared_pages_back() {
    let mut m = MmapManager::default();
    let prot = PROT_READ | PROT_WRITE;
    let a = m.mmap_file(1, "/f", Some(8192), 0, 8192, prot, MAP_SHARED, 0).unwrap();
    let b = m.mmap_file(1, "/g", Some(8192), 0, 8192, prot, MAP_PRIVATE, 0).unwrap();
    m.mark_dirty(1, a + 4096);
    m.mark_dirty(1, b);
    let mut writes = Vec::new();
    assert_eq!(m.munmap(1, b, 8192, &mut writes).unwrap().len(), 1);
    assert!(writes.is_empty());
    assert_eq!(m.munmap(1, a, 8192, &mut writes).unwrap().len(), 1);
    assert_eq!(writes.len(), 1);
    assert_eq!((writes[0].path.as_str(), writes[0].file_offset, writes[0].page_addr), ("/f", 4096, a + 4096));
}

#[test]
fn mapped_files_bring_their_bytes_in() {
    let mut m = MmapManager::default();
    let a = m.mmap_file(1, "/f", Some(6000), 0, 6000, PROT_READ | PROT_WRITE, MAP_SHARED, 0).unwrap();
    let mut file = vec![0u8; 6000];
    file[4097] = 9;
    let page = m.handle_page_fault(1, a + 4096, Some(&file)).unwrap();
    assert_eq!(page[1], 9);
    assert_eq!(page[1904], 0);
    m.mark_dirty(1, a + 4096);
    let writes = m.msync(1, a, 8192).unwrap();
    assert_eq!(writes.len(), 1);
    assert_eq!((writes[0].path.as_str(), writes[0].file_offset, writes[0].page_addr), ("/f", 4096, a + 4096));
    assert!(m.msync(1, a, 8192).unwrap().is_empty());
    assert!(matches!(
        m.mmap_file(1, "/g", None, 0, 10, PROT_READ, MAP_SHARED, 0),
        Err(MmapError::FileNotFound { .. })
    ));
    assert!(matches!(
        m.mmap_file(1, "/f", Some(10), 4096, 10, PROT_READ, MAP_SHARED, 0),
        Err(MmapError::OffsetBeyondFile { offset: 4096, size: 10 })
    ));
}

#[test]
fn mappings_of_a_task_are_limited() {
    let mut m = MmapManager::new(MmapConfig::default().with_max_regions(1));
    assert!(m.mmap_anon(3, 1, PROT_READ, MAP_PRIVATE, 0).is_ok());
    assert!(matches!(
        m.mmap_anon(3, 1, PROT_READ, MAP_PRIVATE, 0),
        Err(MmapError::TooManyRegions(3, 1))
    ));
    assert_eq!(m.cleanup_task(3).len(), 1);
    assert_eq!(m.stats_snapshot().total_regions, 0);
    assert_eq!(
        m.mmap_anon(3, 1, PROT_READ, MAP_PRIVATE | MAP_FIXED, 0x5000_0000_0000).unwrap(),
        0x5000_0000_0000
    );
}

// --------------------------------------------------------------------------
// All of it
// --------------------------------------------------------------------------

#[test]
fn test_memory_pressure_from_free_percent() {
    let thresholds = MemoryPressureThresholds::default();
    assert_eq!(MemPressure::from_free_percent(3000, &thresholds), MemPressure::Normal);
    assert_eq!(MemPressure::from_free_percent(1500, &thresholds), MemPressure::Moderate);
    assert_eq!(MemPressure::from_free_percent(800, &thresholds), MemPressure::High);
    assert_eq!(MemPressure::from_free_percent(300, &thresholds), MemPressure::Critical);
}

#[test]
fn test_memory_stats_utilisation() {
    let stats = MemStats { total_memory: 100, free_memory: 25, ..Default::default() };
    assert!((stats.utilisation_percent() as f64 / 100.0 - 75.0).abs() < 0.01);
}

#[test]
fn test_memory_stats_summary() {
    let stats = MemStats {
        total_memory: 1024 * 1024 * 1024,
        free_memory: 256 * 1024 * 1024,
        kernel_memory: 128 * 1024 * 1024,
        userspace_memory: 512 * 1024 * 1024,
        slab_memory: 64 * 1024 * 1024,
        swapped_memory: 128 * 1024 * 1024,
    };
    let summary = stats.summary("75.0");
    assert!(summary.contains("Mem:"));
    assert!(summary.contains("MiB"));
    assert_eq!(
        summary,
        format!(
            "Mem: total={:.2} MiB, free={:.2} MiB, kernel={:.2} MiB, user={:.2} MiB, swap={:.2} MiB ({:.1}% used)",
            1024.0, 256.0, 128.0, 512.0, 128.0, 75.0
        )
    );
}

#[test]
fn test_oom_handler_legacy() {
    let called = AtomicBool::new(false);
    let mut hook = OomHook::new();
    set_oom_handler(&mut hook, || {
        called.store(true, Ordering::Relaxed);
        true
    });
    assert!(invoke_oom_handler(&hook));
    assert!(called.load(Ordering::Relaxed));
}

#[test]
fn memory_statistics_match_floating_point() {
    for (total, free) in [(3usize, 1usize), (1000, 333), (7, 7), (1 << 30, 12345)] {
        let s = MemStats { total_memory: total, free_memory: free, ..Default::default() };
        let exact = (total - free) as f64 / total as f64 * 100.0;
        assert!((s.utilisation_percent() as f64 / 100.0 - exact).abs() <= 0.01);
    }
}

#[test]
fn allocation_asks_the_handler_when_memory_is_short() {
    let mut m = MemoryManager::default();
    let mut pages = BuddyManager::default();
    pages.init(0x10_0000, 2);
    let a = match m.alloc_pages(&mut pages, 1) {
        AllocStep::Done(a) => a,
        AllocStep::AskHandler => panic!("there are two pages"),
    };
    assert_eq!(m.alloc_pages(&mut pages, 0), AllocStep::AskHandler);
    assert!(matches!(
        m.alloc_again(&mut pages, 0, false),
        Err(MemoryError::OutOfMemory { requested: 4096 })
    ));
    assert_eq!(m.alloc_pages(&mut pages, 0), AllocStep::AskHandler);
    m.free_pages(&mut pages, a, 1);
    assert!(m.alloc_again(&mut pages, 0, true).is_ok());
    let s = m.metrics_snapshot();
    assert_eq!((s.total_allocations, s.total_frees, s.oom_events, s.oom_recovered), (1, 1, 2, 1));
    assert_eq!(s.total_bytes_freed, 8192);
    assert_eq!(pages.free_page_count(), 1);
}

#[test]
fn handler_that_frees_nothing_is_no_help() {
    let mut m = MemoryManager::default();
    let mut pages = BuddyManager::default();
    pages.init(0x10_0000, 1);
    assert!(matches!(mm::alloc_pages(&mut m, &mut pages, 0), AllocStep::Done(_)));
    assert_eq!(mm::alloc_pages(&mut m, &mut pages, 0), AllocStep::AskHandler);
    assert_eq!(mm::alloc_again(&mut m, &mut pages, 0, true), None);
    assert_eq!(m.metrics_snapshot().oom_recovered, 1);
}

#[test]
fn pressure_rises_as_memory_goes() {
    let mut m = MemoryManager::default();
    let mut pages = BuddyManager::default();
    assert_eq!(m.memory_pressure(&pages), MemPressure::Normal);
    pages.init(0x10_0000, 32);
    assert_eq!(mm::memory_pressure(&mut m, &pages), MemPressure::Normal);
    assert!(matches!(mm::alloc_pages(&mut m, &mut pages, 4), AllocStep::Done(_)));
    assert!(matches!(mm::alloc_pages(&mut m, &mut pages, 3), AllocStep::Done(_)));
    assert!(matches!(mm::alloc_pages(&mut m, &mut pages, 1), AllocStep::Done(_)));
    assert_eq!(m.memory_pressure(&pages), MemPressure::Moderate);
    assert!(matches!(mm::alloc_pages(&mut m, &mut pages, 2), AllocStep::Done(_)));
    assert_eq!(m.memory_pressure(&pages), MemPressure::High);
    assert!(matches!(mm::alloc_pages(&mut m, &mut pages, 0), AllocStep::Done(_)));
    assert_eq!(m.memory_pressure(&pages), MemPressure::Critical);
    let s = mm::get_memory_stats(&m, &pages, 100, 1);
    assert_eq!((s.total_memory, s.free_memory, s.swapped_memory), (131072, 4096, 4096));
    assert_eq!(s.userspace_memory, 0);
}

#[test]
fn memory_is_set_up_by_default() {
    let (mut g, mut pages, mut objects, mut maps) = (None, None, None, None);
    mm::init_default(&mut g, &mut pages, &mut objects, &mut maps, test_alloc_page, test_free_page);
    assert_eq!(pages.unwrap().total_pages(), 0x4000);
    let mut m = g.unwrap();
    let mut objects = objects.unwrap();
    let first = slab::default_caches()[0].0.clone();
    let p = mm::slab_alloc(&mut m, &mut objects, &first).unwrap().addr;
    mm::slab_free(&mut m, &mut objects, &first, p);
    assert!(mm::slab_alloc(&mut m, &mut objects, "none such").is_none());
    let mut maps = maps.unwrap();
    let a = mm::mmap_anon(&mut m, &mut maps, 1, 10, PROT_READ, MAP_PRIVATE, 0);
    assert!(a != 0);
    let mut gone = Vec::new();
    let mut writes = Vec::new();
    assert!(mm::munmap(&m, &mut maps, 1, a, 4096, &mut gone, &mut writes));
    assert_eq!(gone.len(), 1);
    let s = m.metrics_snapshot();
    assert_eq!((s.slab_allocations, s.slab_frees, s.mmap_regions), (1, 1, 1));
}

#[test]
fn freeing_restores_the_blocks() {
    let mut a = BuddyAllocator::new(&BuddyConfig::default());
    a.add_region(0x10_0000, 77);
    let start = a.stats();
    assert_eq!((start.largest_free_order, start.fragmentation_count), (Some(6), 4));
    let p = a.allocate(1).unwrap();
    let between = a.stats();
    let q = a.allocate(0).unwrap();
    let r = a.allocate(4).unwrap();
    assert!(a.stats().free_pages == 77 - 19);
    a.free(r, 4).unwrap();
    a.free(q, 0).unwrap();
    assert_eq!(a.stats().largest_free_order, between.largest_free_order);
    assert_eq!(a.stats().fragmentation_count, between.fragmentation_count);
    let s = a.allocate(2).unwrap();
    a.free(p, 1).unwrap();
    a.free(s, 2).unwrap();
    let end = a.stats();
    assert_eq!(
        (end.free_pages, end.allocated_pages, end.largest_free_order, end.fragmentation_count),
        (77, 0, Some(6), 4)
    );
}

#[test]
fn new_objects_meet_no_live_ones() {
    let next = AtomicU64::new(0x4000);
    let source = || Some(next.fetch_add(4096, Ordering::Relaxed));
    let mut c = SlabCache::new("objects", 1000, &SlabConfig::default()).unwrap();
    let size = c.obj_size() as u64;
    let mut live: Vec<u64> = Vec::new();
    for round in 0..20 {
        let object = c.allocate(&source).unwrap();
        assert_eq!(object.size as u64, size);
        let p = object.addr;
        assert!(live.iter().all(|&q| p + size <= q || q + size <= p));
        live.push(p);
        if round % 3 == 2 {
            let gone = live.remove(round % live.len());
            c.free(gone).unwrap();
        }
        assert_eq!(c.total - c.free, live.len());
    }
    assert!(c.pages() > 1);
}

#[test]
fn free_range_does_not_meet_a_mapping() {
    let mut m = MmapManager::new(MmapConfig::default());
    let base = mmap::find_free_address(&m.table, 1, 4096, 0);
    assert_eq!(base, mmap::USER_START);
    let fixed = MAP_ANON | MAP_PRIVATE | MAP_FIXED;
    m.mmap_anon(1, 4096, PROT_READ, fixed, base + 0x2000).unwrap();
    m.mmap_anon(1, 4096, PROT_READ, fixed, base + 0x8000).unwrap();
    m.mmap_anon(1, 4096, PROT_READ, fixed, base + 0x4000).unwrap();
    assert_eq!(mmap::find_free_address(&m.table, 1, 0x2000, 0), base);
    assert_eq!(mmap::find_free_address(&m.table, 1, 0x3000, 0), base + 0x5000);
    assert_eq!(mmap::find_free_address(&m.table, 1, 0x4000, 0), base + 0x9000);
    assert_eq!(mmap::find_free_address(&m.table, 2, 0x4000, 0), base);
    let a = m.mmap_anon(1, 0x3000, PROT_READ, MAP_ANON | MAP_PRIVATE, 0).unwrap();
    assert_eq!(a, base + 0x5000);
}

// --------------------------------------------------------------------------
// Shared memory
// --------------------------------------------------------------------------

fn frames() -> FrameAllocator {
    let config = FrameConfig { max_frames: 512, reserve_first_mib: false, ..Default::default() };
    let mut a = FrameAllocator::new(config);
    a.bitmap.total_frames = 512;
    for i in 0..512 {
        a.bitmap.mark_free(i);
    }
    a.initialised = true;
    a.mark_heap_ready();
    a
}

#[test]
fn shm_test_config_validation() {
    let config = ShmConfig::default();
    assert!(config.validate().is_ok());

    let mut bad = config.clone();
    bad.max_segment_size = 0;
    assert!(bad.validate().is_err());

    let mut bad2 = config;
    bad2.max_segments_per_process = 0;
    assert!(bad2.validate().is_err());
}

#[test]
fn test_shmget_create() {
    let mut f = frames();
    let mut manager = ShmManager::default();
    let key = manager.shmget(&mut f, 0x1234, 4096, IPC_CREAT | SHM_R | SHM_W, 1, 0).unwrap();
    assert_eq!(key, 0x1234);
    assert!(table::segment_exists(&manager.table, key));
    let stats = manager.stats();
    assert_eq!(stats.active_segments, 1);
    assert!(stats.total_bytes >= 4096);
}

#[test]
fn test_shmget_private() {
    let mut f = frames();
    let mut manager = ShmManager::default();
    let key = manager.shmget(&mut f, IPC_PRIVATE, 4096, IPC_CREAT | SHM_R | SHM_W, 1, 0).unwrap();
    assert!(key != IPC_PRIVATE);
    assert!(table::segment_exists(&manager.table, key));
}

#[test]
fn test_shmget_excl() {
    let mut f = frames();
    let mut manager = ShmManager::default();
    manager.shmget(&mut f, 0x5678, 4096, IPC_CREAT | SHM_R | SHM_W, 1, 0).unwrap();
    let err = manager.shmget(&mut f, 0x5678, 4096, IPC_EXCL | IPC_CREAT, 1, 0).unwrap_err();
    assert!(matches!(err, ShmError::AlreadyExists { .. }));
}

#[test]
fn segments_are_shown_and_changed() {
    let mut f = frames();
    let mut manager = ShmManager::default();
    manager.shmget(&mut f, 0x22, 4096, IPC_CREAT | SHM_R | SHM_W, 1, 0).unwrap();
    manager.shmget(&mut f, 0x11, 8192, IPC_CREAT | SHM_R | SHM_W, 1, 0).unwrap();
    let seen = std::cell::RefCell::new(Vec::new());
    table::iter_segments(&manager.table, |s| seen.borrow_mut().push((s.key, s.size)));
    assert_eq!(seen.into_inner(), vec![(0x11, 8192), (0x22, 4096)]);
    table::get_segment_mut(&mut manager.table, 0x22).unwrap().locked = true;
    assert!(table::get_segment(&manager.table, 0x22).unwrap().locked);
    assert!(!table::get_segment(&manager.table, 0x11).unwrap().locked);
    assert!(table::get_segment_mut(&mut manager.table, 0x33).is_none());
}

#[test]
fn test_shmat_shmdt() {
    let mut f = frames();
    let mut manager = ShmManager::default();
    let key = manager.shmget(&mut f, 0x9999, 4096, IPC_CREAT | SHM_R | SHM_W, 1, 0).unwrap();
    let addr = manager.shmat(key, 0, 0, 1, 0).unwrap();
    assert!(addr != 0);
    let stats = manager.stats();
    assert_eq!(stats.used_bytes, 4096);
    assert!(stats.attached_processes >= 1);
    manager.shmdt(&mut f, addr, 1, 0).unwrap();
    let stats2 = manager.stats();
    assert_eq!(stats2.used_bytes, 0);
}

#[test]
fn test_shmctl_rmid() {
    let mut f = frames();
    let mut manager = ShmManager::default();
    let key = manager.shmget(&mut f, 0xAAAA, 4096, IPC_CREAT | SHM_R | SHM_W, 1, 0).unwrap();
    let addr = manager.shmat(key, 0, 0, 1, 0).unwrap();
    manager.shmctl(&mut f, key, IPC_RMID, None, 0).unwrap();
    assert!(table::segment_exists(&manager.table, key));
    manager.shmdt(&mut f, addr, 1, 0).unwrap();
    assert!(!table::segment_exists(&manager.table, key));
}

#[test]
fn test_cleanup_process() {
    let mut f = frames();
    let mut manager = ShmManager::default();
    let key = manager.shmget(&mut f, 0xBBBB, 4096, IPC_CREAT | SHM_R | SHM_W, 2, 0).unwrap();
    manager.shmat(key, 0, 0, 2, 0).unwrap();
    manager.cleanup_process(&mut f, 2, 0);
    let stats = manager.stats();
    assert_eq!(stats.attached_processes, 0);
}

#[test]
fn shm_test_metrics() {
    let mut f = frames();
    let mut manager = ShmManager::default();
    let key = manager.shmget(&mut f, 0xCCCC, 4096, IPC_CREAT | SHM_R | SHM_W, 1, 0).unwrap();
    manager.shmat(key, 0, 0, 1, 0).unwrap();
    let snap = manager.metrics_snapshot();
    assert_eq!(snap.segments_created, 1);
    assert_eq!(snap.attaches, 1);
    assert!(snap.total_bytes_allocated >= 4096);
}

#[test]
fn private_key_that_is_in_use_is_skipped() {
    let mut f = frames();
    let mut m = ShmManager::default();
    let first = m.shmget(&mut f, IPC_PRIVATE, 4096, SHM_R | SHM_W, 1, 0).unwrap();
    m.shmget(&mut f, first + 1, 4096, IPC_CREAT | SHM_R | SHM_W, 1, 0).unwrap();
    let next = m.shmget(&mut f, IPC_PRIVATE, 4096, IPC_EXCL | SHM_R | SHM_W, 1, 0).unwrap();
    assert!(next != 0 && next != first && next != first + 1);
    assert_eq!(f.stats().free_frames, 509);
}

#[test]
fn segments_are_attached_at_the_places_of_their_keys() {
    let mut f = frames();
    let mut m = ShmManager::default();
    let step = 0x10_0000;
    let last: u64 = 0x0FFF_F7FF_FFFF;
    for key in [1, 1 << 43, last] {
        m.shmget(&mut f, key, 2 * 4096, IPC_CREAT | SHM_R | SHM_W, 1, 0).unwrap();
        assert_eq!(m.shmat(key, 0, 0, 1, 0), Ok(0x8000_0000_0000 + key * step));
    }
    m.shmget(&mut f, last + 1, 4096, IPC_CREAT | SHM_R | SHM_W, 1, 0).unwrap();
    assert!(m.shmat(last + 1, 0, 0, 1, 0).unwrap() >= 0xC000_0000_0000_0000);
    let top = u64::MAX - 0x1FFF;
    assert_eq!(m.shmat(1, top, 0, 1, 0), Ok(top));
}

#[test]
fn private_segment_is_attached_where_it_fits() {
    let mut f = frames();
    let mut m = ShmManager::default();
    let a = m.shmget(&mut f, IPC_PRIVATE, 4096, SHM_R | SHM_W, 1, 0).unwrap();
    let b = m.shmget(&mut f, IPC_PRIVATE, 8192, SHM_R | SHM_W, 1, 0).unwrap();
    let x = m.shmat(a, 0, 0, 1, 0).unwrap();
    let y = m.shmat(b, 0, 0, 1, 0).unwrap();
    assert!(x != 0 && y != 0 && x != y);
    assert_eq!((x % 4096, y % 4096), (0, 0));
    m.shmdt(&mut f, x, 1, 0).unwrap();
    m.shmdt(&mut f, y, 1, 0).unwrap();
}

#[test]
fn shared_memory_gives_its_frames_back() {
    let mut f = frames();
    let mut m = ShmManager::default();
    let key = shm::shmget(&mut m, &mut f, 7, 10_000, IPC_CREAT | SHM_R | SHM_W, 1, 5).unwrap();
    assert_eq!(f.stats().free_frames, 509);
    let seg = shm::shm_info(&m, key).unwrap();
    assert_eq!((seg.phys_frames.len(), seg.size, seg.ref_count), (3, 12288, 0));
    assert!(shm::shm_exists(&m, key));
    shm::shmctl(&mut m, &mut f, key, IPC_RMID, None, 6).unwrap();
    assert!(!shm::shm_exists(&m, key));
    assert_eq!(f.stats().free_frames, 512);
    assert_eq!(shm::shm_stats(&m).active_segments, 0);
}

#[test]
fn shared_memory_that_does_not_fit_leaves_no_frame() {
    let mut f = frames();
    let mut m = ShmManager::default();
    assert!(matches!(
        m.shmget(&mut f, 7, 600 * 4096, IPC_CREAT | SHM_R, 1, 0),
        Err(ShmError::OutOfMemory)
    ));
    assert_eq!(f.stats().free_frames, 512);
    assert_eq!(m.metrics_snapshot().oom_events, 1);
    assert!(matches!(m.shmget(&mut f, 7, 0, IPC_CREAT, 1, 0), Err(ShmError::ZeroSize)));
    assert!(matches!(
        m.shmget(&mut f, 7, shm::SHMMAX + 1, IPC_CREAT, 1, 0),
        Err(ShmError::SizeTooLarge { .. })
    ));
    assert!(matches!(m.shmget(&mut f, 7, 4096, 0, 1, 0), Err(ShmError::NotFound { key: 7 })));
    assert!(matches!(m.shmat(9, 0, 0, 1, 0), Err(ShmError::NotFound { key: 9 })));
    assert!(matches!(m.shmdt(&mut f, 0x123, 1, 0), Err(ShmError::InvalidAddress { addr: 0x123 })));
}

#[test]
fn shared_memory_control() {
    let mut f = frames();
    let mut m = ShmManager::default();
    let key = m.shmget(&mut f, 8, 4096, IPC_CREAT | SHM_R | SHM_W, 1, 0).unwrap();
    let p = m.shmctl(&mut f, key, IPC_STAT, Some(ShmPerm::default()), 0).unwrap();
    assert!(p.is_some());
    assert!(m.shmctl(&mut f, key, IPC_STAT, None, 0).unwrap().is_none());
    let q = ShmPerm { uid: 5, ..ShmPerm::default() };
    m.shmctl(&mut f, key, IPC_SET, Some(q), 3).unwrap();
    assert_eq!(m.shmctl(&mut f, key, IPC_STAT, Some(ShmPerm::default()), 0).unwrap().unwrap().uid, 5);
    m.shmctl(&mut f, key, SHM_LOCK, None, 0).unwrap();
    assert!(shm::shm_info(&m, key).unwrap().locked);
    assert!(matches!(
        m.shmctl(&mut f, key, 99, None, 0),
        Err(ShmError::InvalidCommand { cmd: 99 })
    ));
}

// --------------------------------------------------------------------------
// Objects
// --------------------------------------------------------------------------

fn test_alloc_page() -> Option<u64> {
    Some(0x1000)
}

fn test_free_page(_p: u64) {}

#[test]
fn test_slab_cache_new() -> SlabResult<()> {
    let config = SlabConfig::default();
    let cache = SlabCache::new("test", 64, &config)?;
    assert_eq!(cache.obj_size(), 64);
    assert_eq!(cache.total, 0);
    assert_eq!(cache.free, 0);
    Ok(())
}

#[test]
fn test_slab_cache_grow() {
    let config = SlabConfig::default();
    let mut cache = SlabCache::new("test", 64, &config).unwrap();
    let result = cache.grow(test_alloc_page);
    assert!(result);
    assert_eq!(cache.total, config.page_size / 64);
    assert_eq!(cache.free, config.page_size / 64);
    assert_eq!(cache.pages(), 1);
}

#[test]
fn test_slab_cache_alloc_and_free() -> SlabResult<()> {
    let config = SlabConfig::default();
    let mut cache = SlabCache::new("test", 64, &config).unwrap();
    cache.grow(test_alloc_page);

    let p = cache.allocate(test_alloc_page).unwrap().addr;
    assert!(p != 0);
    assert_eq!(cache.free, (config.page_size / 64) - 1);

    cache.free(p)?;
    assert_eq!(cache.free, config.page_size / 64);
    Ok(())
}

#[test]
fn test_double_free_detection() -> SlabResult<()> {
    let config = SlabConfig::default();
    let mut cache = SlabCache::new("test", 64, &config).unwrap();
    cache.grow(test_alloc_page);

    let p = cache.allocate(test_alloc_page).unwrap().addr;
    cache.free(p)?;
    let result = cache.free(p);
    assert!(matches!(result, Err(SlabError::DoubleFree { .. })));
    Ok(())
}

#[test]
fn test_slab_stats() -> SlabResult<()> {
    let config = SlabConfig::default();
    let mut cache = SlabCache::new("test", 64, &config).unwrap();
    cache.grow(test_alloc_page);

    let mut stats = SlabStats::default();
    cache.merge_stats(&mut stats);
    assert_eq!(stats.total, config.page_size / 64);
    assert_eq!(stats.free, config.page_size / 64);
    assert_eq!(stats.pages, 1);
    Ok(())
}

#[test]
fn test_manager_create_cache() -> SlabResult<()> {
    let mut manager = SlabManager::new(SlabConfig::default(), test_alloc_page, test_free_page);
    manager.create_cache("test", 64)?;
    assert!(manager.cache_exists("test"));
    Ok(())
}

#[test]
fn test_manager_duplicate_cache_fails() -> SlabResult<()> {
    let mut manager = SlabManager::new(SlabConfig::default(), test_alloc_page, test_free_page);
    manager.create_cache("test", 64)?;
    let result = manager.create_cache("test", 128);
    assert!(matches!(result, Err(SlabError::CacheAlreadyExists { .. })));
    Ok(())
}

#[test]
fn test_manager_alloc_and_free() -> SlabResult<()> {
    let mut manager = SlabManager::new(SlabConfig::default(), test_alloc_page, test_free_page);
    manager.create_cache("test", 64)?;
    let p = manager.allocate("test")?.addr;
    assert!(p != 0);
    manager.free("test", p)?;
    Ok(())
}

#[test]
fn test_manager_cache_not_found() {
    let mut manager = SlabManager::new(SlabConfig::default(), test_alloc_page, test_free_page);
    let result = manager.allocate("nonexistent");
    assert!(matches!(result, Err(SlabError::CacheNotFound { .. })));
}

#[test]
fn test_manager_delete_cache() -> SlabResult<()> {
    let mut manager = SlabManager::new(SlabConfig::default(), test_alloc_page, test_free_page);
    manager.create_cache("test", 64)?;
    manager.delete_cache("test")?;
    assert!(!manager.cache_exists("test"));
    Ok(())
}

#[test]
fn test_manager_all_stats() -> SlabResult<()> {
    let mut manager = SlabManager::new(SlabConfig::default(), test_alloc_page, test_free_page);
    manager.create_cache("test1", 64)?;
    manager.create_cache("test2", 128)?;
    let stats = manager.all_stats();
    assert_eq!(stats.len(), 2 + manager.config.default_caches.len());
    Ok(())
}

#[test]
fn test_manager_total_memory() -> SlabResult<()> {
    let mut manager = SlabManager::new(SlabConfig::default(), test_alloc_page, test_free_page);
    manager.create_cache("test", 64)?;
    manager.allocate("test")?;
    let mem = manager.total_memory_used();
    assert!(mem > 0);
    Ok(())
}

#[test]
fn objects_of_a_page_are_apart() {
    let mut cache = SlabCache::new("c", 100, &SlabConfig::default()).unwrap();
    assert_eq!(cache.obj_size(), 112);
    let mut seen = Vec::new();
    for _ in 0..(4096 / 112) {
        seen.push(cache.allocate(test_alloc_page).unwrap().addr);
    }
    seen.sort();
    for w in seen.windows(2) {
        assert!(w[1] - w[0] >= 112);
    }
    assert_eq!(cache.pages(), 1);
    assert!(cache.needs_page());
    assert!(cache.allocate(|| None).is_none());
}

#[test]
fn figures_in_words() {
    let s = SlabStats { name: "task".to_string(), total: 64, free: 60, pages: 1 };
    assert_eq!(
        s.describe("6.2"),
        format!(
            "{:>12}: total={:>6}, used={:>6}, free={:>6}, pages={:>4} ({:.1}%)",
            "task", 64, 4, 60, 1, 6.25
        )
    );
    let mut a = BuddyAllocator::new(&BuddyConfig::default());
    assert!(a.stats().describe().contains("  Largest free order: None\n"));
    a.add_region(0x1000, 4);
    assert_eq!(
        a.stats().describe(),
        "Buddy Allocator Statistics:\n  Total pages: 4\n  Free pages: 4\n  Allocated pages: 0\n  Largest free order: Some(2)\n  Fragmentation count: 1\n"
    );
}

#[test]
fn objects_must_have_a_size() {
    let r = SlabCache::new("c", 4, &SlabConfig::default());
    assert!(matches!(r, Err(SlabError::InvalidObjectSize { size: 4, min: 8 })));
    let mut m = SlabManager::new(SlabConfig::default(), || None, test_free_page);
    m.create_cache("t", 64).unwrap();
    assert!(matches!(m.allocate("t"), Err(SlabError::AllocationFailed { .. })));
    assert_eq!(m.metrics_snapshot().allocation_failures, 1);
    assert!(matches!(m.free("nope", 1), Err(SlabError::CacheNotFound { .. })));
}
