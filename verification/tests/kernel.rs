//! Degraded components, the C library and booting.
use iona::gui::canvas::DrawOp;
use iona::kernel::boot;
use iona::kernel::boot::{
    BusScan, Daemon, Driver, Hardening, KernelConfig, KernelMetrics, Level, NodeTask, PciDevice,
    Registers, StubNode,
};
use iona::kernel::degraded;
use iona::kernel::degraded::{
    DegradedComponent, DegradedConfig, DegradedError, DegradedEvent, DegradedManager,
    PersistentState, StateForm,
};
use iona::libc_kern;
use iona::libc_kern::musl_compat;
use iona::libc_kern::musl_compat::{MmapRequest, MuslCompatConfig, MuslCompatManager};
use iona::libc_kern::{Block, LibcConfig, LibcManager};

fn reset() -> DegradedManager {
    let mut global = None;
    degraded::init_global(&mut global, DegradedConfig::default(), None).unwrap();
    let mut m = global.unwrap();
    degraded::clear_all(&mut m);
    m
}

// --------------------------------------------------------------------------
// Degraded components
// --------------------------------------------------------------------------

#[test]
fn test_mark_and_check() {
    let mut m = reset();
    assert!(!degraded::is_degraded(&m));
    degraded::mark_degraded(&mut m, "test1", "failed to init", &["net", "storage"], 17);
    assert!(degraded::is_degraded(&m));
    assert_eq!(degraded::degraded_count(&m), 1);
    assert!(degraded::is_degraded_for(&m, "test1"));
    assert!(!degraded::is_degraded_for(&m, "nonexistent"));

    let comps = degraded::components(&m);
    assert_eq!(comps.len(), 1);
    assert_eq!(comps[0].name, "test1");
    assert!(comps[0].reason.contains("failed"));
    assert_eq!(comps[0].affects, vec!["net", "storage"]);
    assert!(comps[0].timestamp_ms > 0);

    degraded::clear_degraded(&mut m, "test1");
    assert!(!degraded::is_degraded(&m));
    assert_eq!(degraded::degraded_count(&m), 0);
}

#[test]
fn test_mark_duplicate_updates() {
    let mut m = reset();
    degraded::mark_degraded(&mut m, "driver", "first error", &[], 1);
    degraded::mark_degraded(&mut m, "driver", "second error", &["disk"], 2);

    let comp = degraded::components(&m)[0].clone();
    assert_eq!(comp.reason, "second error");
    assert_eq!(comp.affects, vec!["disk"]);
    assert_eq!(degraded::degraded_count(&m), 1);
}

#[test]
fn test_status_string() {
    let mut m = reset();
    assert_eq!(degraded::status_string(&m), "OK");
    degraded::mark_degraded(&mut m, "alpha", "missing", &[], 1);
    degraded::mark_degraded(&mut m, "beta", "timeout", &["p2p"], 2);
    let s = degraded::status_string(&m);
    assert!(s.contains("DEGRADED (2):"));
    assert!(s.contains("alpha"));
    assert!(s.contains("beta"));
}

#[test]
fn test_max_components_ring_buffer() {
    let mut global = Some(reset());
    let config = DegradedConfig { max_components: 3, ..Default::default() };
    let _ = degraded::init_global(&mut global, config, None);
    let mut m = global.unwrap();
    for i in 0..4 {
        degraded::mark_degraded(&mut m, &format!("comp_{}", i), "test", &[], i);
    }
    assert_eq!(degraded::degraded_count(&m), 3);
    assert!(!degraded::is_degraded_for(&m, "comp_0"));
    assert!(degraded::is_degraded_for(&m, "comp_1"));
    assert!(degraded::is_degraded_for(&m, "comp_3"));
}

#[test]
fn test_clear_all() {
    let mut m = reset();
    degraded::mark_degraded(&mut m, "a", "r", &[], 1);
    degraded::mark_degraded(&mut m, "b", "r", &[], 1);
    assert_eq!(degraded::degraded_count(&m), 2);
    degraded::clear_all(&mut m);
    assert_eq!(degraded::degraded_count(&m), 0);
}

#[test]
fn test_empty_name_is_rejected() {
    let mut m = reset();
    degraded::mark_degraded(&mut m, "", "some reason", &[], 1);
    assert!(!degraded::is_degraded(&m));
    assert_eq!(degraded::degraded_count(&m), 0);
}

#[test]
fn test_empty_reason_is_rejected() {
    let mut m = reset();
    degraded::mark_degraded(&mut m, "valid_name", "", &[], 1);
    assert!(!degraded::is_degraded(&m));
    assert_eq!(degraded::degraded_count(&m), 0);
}

#[test]
fn test_with_degraded() {
    let mut m = reset();
    degraded::mark_degraded(&mut m, "test", "reason", &["a"], 1);
    let result = degraded::with_degraded(&m, "test", |c| c.reason.clone());
    assert_eq!(result, Some("reason".to_string()));
    let result2 = degraded::with_degraded(&m, "nonexistent", |_| 42);
    assert_eq!(result2, None);
}

#[test]
fn test_summary() {
    let mut m = reset();
    assert_eq!(degraded::summary(&m), "none");
    degraded::mark_degraded(&mut m, "a", "r", &[], 1);
    degraded::mark_degraded(&mut m, "b", "r", &[], 1);
    assert_eq!(degraded::summary(&m), "a, b");
}

#[test]
fn test_mark_recovered() {
    let mut m = reset();
    degraded::mark_degraded(&mut m, "test", "error", &[], 1);
    assert!(degraded::is_degraded_for(&m, "test"));
    assert!(degraded::mark_recovered(&mut m, "test", 5).0);
    assert!(!degraded::is_degraded_for(&m, "test"));
    assert_eq!(degraded::degraded_count(&m), 0);
    let comps = degraded::components(&m);
    assert_eq!(comps.len(), 1);
    assert!(comps[0].recovered);
    assert!(comps[0].recovered_at_ms > 0);
}

#[test]
fn degraded_test_metrics() {
    let mut global = None;
    let _ = degraded::init_global(&mut global, DegradedConfig::default(), None);
    let mut m = global.unwrap();
    let snap = degraded::metrics(&m);
    assert_eq!(snap.marks, 0);
    degraded::mark_degraded(&mut m, "a", "r", &[], 1);
    let snap = degraded::metrics(&m);
    assert_eq!(snap.marks, 1);
    degraded::mark_recovered(&mut m, "a", 2);
    let snap = degraded::metrics(&m);
    assert_eq!(snap.recoveries, 1);
    degraded::clear_degraded(&mut m, "b");
    let snap = degraded::metrics(&m);
    assert_eq!(snap.clears, 0);
    degraded::clear_all(&mut m);
    let snap = degraded::metrics(&m);
    assert_eq!(snap.clears_all, 1);
}

#[test]
fn degraded_changes_name_their_events() {
    let mut m = DegradedManager::default();
    let c = m.mark_degraded("disk", "gone", &["fs"], 10);
    assert!(c.save);
    assert!(matches!(c.events[0], DegradedEvent::ComponentAdded(_)));
    let c = m.mark_degraded("disk", "slow", &[], 11);
    assert!(matches!(c.events[0], DegradedEvent::ComponentUpdated(_)));
    let (found, c) = m.mark_recovered("disk", 12);
    assert!(found);
    assert!(matches!(c.events[0], DegradedEvent::ComponentRecovered(_)));
    let (found, c) = m.clear_component("disk");
    assert!(found);
    assert!(matches!(c.events[0], DegradedEvent::ComponentCleared(_)));
    m.mark_degraded("disk", "gone", &[], 13);
    assert!(matches!(m.clear_all().events[0], DegradedEvent::AllCleared));
    assert!(m.clear_all().events.is_empty());
    assert!(!m.mark_recovered("disk", 13).0);
}

#[test]
fn degraded_component_in_words() {
    let mut c = DegradedComponent::new("net", "no link", &["p2p", "rpc"], 3).unwrap();
    assert_eq!(c.describe(), "net: no link (affects: p2p, rpc) [3ms]");
    c.mark_recovered(9);
    assert_eq!(c.describe(), "net: no link (affects: p2p, rpc) [RECOVERED at 9ms]");
    assert_eq!(DegradedComponent::new("", "r", &[], 0).unwrap_err(), DegradedError::EmptyName);
    assert_eq!(DegradedComponent::new("n", "", &[], 0).unwrap_err(), DegradedError::EmptyReason);
}

#[test]
fn degraded_config_is_checked() {
    let bad = DegradedConfig { max_components: 0, ..Default::default() };
    assert!(bad.validate().is_err());
    assert!(matches!(DegradedManager::new(bad, None), Err(DegradedError::Config(_))));
}

#[test]
fn saved_state_is_recognised() {
    assert_eq!(degraded::load_form("{\"version\": 1, \"components\": []}").unwrap(), StateForm::Versioned);
    assert_eq!(degraded::load_form("[]").unwrap(), StateForm::Legacy);
    assert_eq!(degraded::load_form("{\"version\": -1}").unwrap(), StateForm::Legacy);
    assert_eq!(
        degraded::load_form("{\"version\": 2}").unwrap_err(),
        DegradedError::UnsupportedVersion { version: 2, expected: 1 }
    );
    match degraded::load_form("{") {
        Err(DegradedError::Persistence(s)) => assert!(s.starts_with("parse error: EOF")),
        _ => panic!("expected an error"),
    }
    assert_eq!(degraded::temp_path("/a/b"), "/a/b.tmp");
}

#[test]
fn saved_state_gives_back_the_components() {
    let mut m = DegradedManager::default();
    m.mark_degraded("a", "r", &[], 1);
    let st = PersistentState::from_manager(&m, 99);
    assert_eq!((st.version, st.last_modified), (1, 99));
    let back = DegradedManager::new(DegradedConfig::default(), Some(st.into_components())).unwrap();
    assert!(back.is_degraded_for("a"));
}

// --------------------------------------------------------------------------
// C library
// --------------------------------------------------------------------------

fn init_test() -> LibcManager {
    let config = LibcConfig {
        allocator_alignment: 16,
        track_metrics: true,
        log_allocations: false,
        max_allocation_size: 1024 * 1024,
    };
    let mut global = None;
    let _ = libc_kern::init_libc(&mut global, config);
    global.unwrap()
}

#[test]
fn test_memcpy_basic() {
    let src = [1u8, 2, 3, 4, 5];
    let mut dst = [0u8; 5];
    libc_kern::memcpy(&mut dst, &src, 5);
    assert_eq!(dst, src);
}

#[test]
fn test_memcpy_zero_bytes() {
    let src = [1u8];
    let mut dst = [2u8];
    libc_kern::memcpy(&mut dst, &src, 0);
    assert_eq!(dst[0], 2);
}

#[test]
fn test_memmove_overlap_forward() {
    let mut buf = [1u8, 2, 3, 4, 0];
    libc_kern::memmove(&mut buf, 1, 0, 4);
    assert_eq!(buf, [1, 1, 2, 3, 4]);
}

#[test]
fn test_memmove_overlap_backward() {
    let mut buf = [1u8, 2, 3, 4, 0];
    libc_kern::memmove(&mut buf, 0, 1, 4);
    assert_eq!(buf, [2, 3, 4, 0, 0]);
}

#[test]
fn test_memset_fill() {
    let mut buf = [0u8; 5];
    libc_kern::memset(&mut buf, 0xAB, 5);
    assert_eq!(buf, [0xAB; 5]);
}

#[test]
fn test_memset_zero() {
    let mut buf = [0xFFu8; 3];
    libc_kern::memset(&mut buf, 0, 3);
    assert_eq!(buf, [0; 3]);
}

#[test]
fn test_memcmp_equal() {
    let a = [1, 2, 3];
    let b = [1, 2, 3];
    let res = libc_kern::memcmp(&a, &b, 3);
    assert_eq!(res, 0);
}

#[test]
fn test_memcmp_diff() {
    let a = [1, 2, 3];
    let b = [1, 4, 3];
    let res = libc_kern::memcmp(&a, &b, 3);
    assert!(res < 0);
}

#[test]
fn test_strlen() {
    let s = "hello\0extra";
    let len = libc_kern::strlen(s.as_bytes());
    assert_eq!(len, 5);
}

#[test]
fn test_strlen_empty() {
    let s = "\0";
    assert_eq!(libc_kern::strlen(s.as_bytes()), 0);
}

#[test]
fn test_strcmp_equal() {
    let a = "abc\0";
    let b = "abc\0";
    assert_eq!(libc_kern::strcmp(a.as_bytes(), b.as_bytes()), 0);
}

#[test]
fn test_strcmp_a_less() {
    let a = "abc\0";
    let b = "abd\0";
    assert!(libc_kern::strcmp(a.as_bytes(), b.as_bytes()) < 0);
}

#[test]
fn test_strcmp_a_greater() {
    let a = "abz\0";
    let b = "aba\0";
    assert!(libc_kern::strcmp(a.as_bytes(), b.as_bytes()) > 0);
}

#[test]
fn test_strncpy_full() {
    let src = "abcde\0";
    let mut dst = [0u8; 5];
    libc_kern::strncpy(&mut dst, src.as_bytes(), 5);
    assert_eq!(&dst, b"abcde");
}

#[test]
fn test_strncpy_pad_zeros() {
    let src = "ab\0";
    let mut dst = [0xFFu8; 5];
    libc_kern::strncpy(&mut dst, src.as_bytes(), 5);
    assert_eq!(&dst, b"ab\0\0\0");
}

#[test]
fn test_strncpy_no_null_terminator_in_source() {
    let src = [0x41u8, 0x42, 0x43, 0x44, 0x45];
    let mut dst = [0u8; 3];
    libc_kern::strncpy(&mut dst, &src, 3);
    assert_eq!(dst, [0x41, 0x42, 0x43]);
}

#[test]
fn test_metrics_alloc() {
    let mut m = init_test();
    let block = libc_kern::malloc(&mut m, 64).unwrap();
    assert!(libc_kern::malloc_at(&mut m, block, 0x1000) != 0);
    let snap = libc_kern::libc_metrics(&m);
    assert_eq!(snap.allocations, 1);
    assert_eq!(snap.bytes_allocated, 64);
    libc_kern::free_sized(&mut m, 0x1000, 64);
    let snap2 = libc_kern::libc_metrics(&m);
    assert_eq!(snap2.frees, 1);
    assert_eq!(snap2.bytes_freed, 64);
}

#[test]
fn test_metrics_alloc_failure() {
    let mut m = init_test();
    let config = LibcConfig { max_allocation_size: 10, ..Default::default() };
    libc_kern::set_libc_config(&mut m, config).unwrap();
    let block = libc_kern::malloc(&mut m, 100);
    assert!(block.is_none());
    let snap = libc_kern::libc_metrics(&m);
    assert_eq!(snap.allocation_failures, 1);
}

#[test]
fn allocation_and_free_agree_on_the_block() {
    let mut m = init_test();
    let got = libc_kern::malloc(&mut m, 40).unwrap();
    assert_eq!((got.size, got.align), (40, 16));
    assert_eq!(libc_kern::malloc_at(&mut m, got, 0x2000), 0x2000);
    let back = libc_kern::free_sized(&mut m, 0x2000, 40).unwrap();
    assert_eq!(back, Block { size: 40, align: 16 });
    assert!(libc_kern::free_sized(&mut m, 0, 40).is_none());
}

#[test]
fn allocations_that_have_no_layout_fail() {
    let mut global = None;
    libc_kern::init(&mut global);
    let mut m = global.unwrap();
    assert!(libc_kern::malloc(&mut m, usize::MAX).is_none());
    assert!(libc_kern::malloc(&mut m, isize::MAX as usize - 15).is_some());
    assert!(libc_kern::malloc(&mut m, isize::MAX as usize - 14).is_none());
    assert_eq!(libc_kern::libc_metrics(&m).allocation_failures, 2);
    let bad = LibcConfig { allocator_alignment: 3, ..Default::default() };
    assert!(LibcManager::new(bad).is_err());
}

#[test]
fn allocation_counts_with_the_answer() {
    let mut m = init_test();
    assert!(libc_kern::malloc(&mut m, 0).is_none());
    let block = libc_kern::malloc(&mut m, 100).unwrap();
    let s = m.metrics_snapshot();
    assert_eq!((s.allocations, s.bytes_allocated, s.allocation_failures), (0, 0, 0));
    assert_eq!(m.allocated_at(block, 0), 0);
    let s = m.metrics_snapshot();
    assert_eq!((s.allocations, s.bytes_allocated, s.allocation_failures), (0, 0, 1));
    assert_eq!(m.allocated_at(block, 0x3000), 0x3000);
    let s = m.metrics_snapshot();
    assert_eq!((s.allocations, s.bytes_allocated, s.allocation_failures), (1, 100, 1));
}

#[test]
fn counters_stand_still_when_they_are_not_kept() {
    let config = LibcConfig {
        track_metrics: false,
        max_allocation_size: 10,
        ..Default::default()
    };
    let mut m = LibcManager::new(config).unwrap();
    assert!(m.allocate(100).is_none());
    let block = m.allocate(8).unwrap();
    m.allocated_at(block, 0);
    m.allocated_at(block, 0x1000);
    assert!(m.deallocate(0x1000, 8).is_some());
    assert!(m.deallocate(0, 8).is_none());
    let s = m.metrics_snapshot();
    assert_eq!((s.allocations, s.frees, s.allocation_failures, s.free_errors), (0, 0, 0, 0));
    let config = MuslCompatConfig { track_metrics: false, ..Default::default() };
    let mut m = MuslCompatManager::new(config).unwrap();
    let old = m.get_brk();
    musl_compat::sys_brk(&mut m, old + 1, map);
    musl_compat::sys_brk(&mut m, u64::MAX, map);
    musl_compat::sys_clock_gettime(&mut m, 1, 0, false, 0);
    let s = m.metrics_snapshot();
    assert_eq!((s.syscalls, s.syscall_errors, s.brk_extensions, s.clock_gettime_calls), (0, 0, 0, 0));
}

// --------------------------------------------------------------------------
// System calls of musl
// --------------------------------------------------------------------------

fn init_musl() -> MuslCompatManager {
    let mut global = None;
    let _ = musl_compat::init_musl_compat(&mut global, MuslCompatConfig::default());
    global.unwrap()
}

fn map(_addr: u64, _len: usize) -> u64 {
    0
}

#[test]
fn test_utsname_buffer() {
    let buf = musl_compat::build_utsname_buffer();
    assert_eq!(&buf[0..7], b"IONA OS");
    assert_eq!(&buf[65..69], b"iona");
    assert_eq!(&buf[130..135], b"0.5.0");
    assert_eq!(&buf[195..201], b"#1 SMP");
    assert_eq!(&buf[260..266], b"x86_64");
}

#[test]
fn test_brk_basic() {
    let mut m = init_musl();
    let old = musl_compat::sys_brk(&mut m, 0, map);
    assert!(old > 0);
    let new = old + 4096;
    let result = musl_compat::sys_brk(&mut m, new, map);
    assert_eq!(result, new);
    assert_eq!(musl_compat::sys_brk(&mut m, 0, map), new);
}

#[test]
fn test_brk_shrink() {
    let mut m = init_musl();
    let old = musl_compat::sys_brk(&mut m, 0, map);
    let new = old + 4096;
    musl_compat::sys_brk(&mut m, new, map);
    let result = musl_compat::sys_brk(&mut m, old, map);
    assert_eq!(result, old);
    assert_eq!(musl_compat::sys_brk(&mut m, 0, map), old);
}

#[test]
fn test_brk_max_heap() {
    let mut m = init_musl();
    let config = MuslCompatConfig { max_heap_size: 4096, ..Default::default() };
    m.set_config(config).unwrap();
    let old = musl_compat::sys_brk(&mut m, 0, map);
    let new = old + 8192;
    let result = musl_compat::sys_brk(&mut m, new, map);
    assert_eq!(result, old);
    assert_eq!(musl_compat::sys_brk(&mut m, 0, map), old);
}

#[test]
fn musl_compat_test_metrics() {
    let mut m = init_musl();
    let snap1 = m.metrics_snapshot();
    assert_eq!(snap1.syscalls, 0);

    musl_compat::sys_getpid(&mut m, 7);
    let snap2 = m.metrics_snapshot();
    assert_eq!(snap2.syscalls, 1);
}

#[test]
fn test_identity_syscalls() {
    let mut m = init_musl();
    assert_eq!(musl_compat::sys_getuid(&mut m), 0);
    assert_eq!(musl_compat::sys_getgid(&mut m), 0);
    assert_eq!(musl_compat::sys_geteuid(&mut m), 0);
    assert_eq!(musl_compat::sys_getegid(&mut m), 0);
    assert_eq!(musl_compat::sys_getppid(&mut m), 1);
}

#[test]
fn test_readlink() {
    let mut m = init_musl();
    let n = musl_compat::sys_readlink(&mut m, 0x1000, 0x2000, 64, Some("/proc/self/exe"), |_, b| {
        b.as_slice() == b"/bin/iona-node\0"
    });
    assert_eq!(n, 15);
    let n = musl_compat::sys_readlink(&mut m, 0x1000, 0x2000, 4, Some("/proc/self"), |_, b| b.as_slice() == b"/bin");
    assert_eq!(n, 4);
    let n = musl_compat::sys_readlink(&mut m, 0x1000, 0x2000, 64, Some("/nowhere"), |_, _| true);
    assert_eq!(n, musl_compat::ENOENT);
}

#[test]
fn brk_that_cannot_be_mapped_stays() {
    let mut m = init_musl();
    let old = m.get_brk();
    assert_eq!(musl_compat::sys_brk(&mut m, old + 4096, |_, _| u64::MAX), old);
    assert_eq!(m.get_brk(), old);
}

#[test]
fn only_extensions_of_the_heap_count_as_such() {
    let mut m = init_musl();
    let old = m.get_brk();
    assert_eq!(m.set_brk(0, map), old);
    assert_eq!(m.metrics_snapshot().brk_extensions, 0);
    m.set_brk(old + 4096, map);
    assert_eq!(m.metrics_snapshot().brk_extensions, 1);
    m.set_brk(old, map);
    musl_compat::sys_brk(&mut m, old + 1, |_, _| u64::MAX);
    let s = m.metrics_snapshot();
    assert_eq!((s.syscalls, s.syscall_errors, s.brk_extensions), (4, 1, 1));
}

#[test]
fn brk_below_the_heap_does_not_grow() {
    let mut m = init_musl();
    assert_eq!(m.set_brk(1, map), 1);
    assert_eq!(m.set_brk(2, map), 1);
    assert_eq!((m.get_brk(), m.metrics_snapshot().syscall_errors), (1, 1));
    assert_eq!(m.metrics_snapshot().brk_extensions, 0);
    assert_eq!(m.set_brk(u64::MAX, map), 1);
    let config = MuslCompatConfig { brk_base: u64::MAX - 100, ..Default::default() };
    let mut m = MuslCompatManager::new(config).unwrap();
    assert_eq!(m.set_brk(1, map), 1);
    assert_eq!(m.set_brk(u64::MAX, map), 1);
}

#[test]
fn clocks_and_sleeps() {
    let mut m = init_musl();
    let r = musl_compat::sys_clock_gettime(&mut m, 1, 0x5000, true, 12_345);
    assert_eq!(r.value, 0);
    assert_eq!((r.writes[0].addr, r.writes[0].value), (0x5000, 12));
    assert_eq!((r.writes[1].addr, r.writes[1].value), (0x5008, 345_000_000));
    assert_eq!(musl_compat::sys_clock_gettime(&mut m, 1, 0x5000, false, 0).value, musl_compat::EFAULT);
    assert_eq!(musl_compat::sys_nanosleep(&mut m, true, Some(2), Some(5_000_000)), (0, Some(2005)));
    assert_eq!(m.metrics_snapshot().clock_gettime_calls, 2);
}

#[test]
fn uname_and_sysinfo_are_copied_out() {
    let mut m = init_musl();
    assert_eq!(musl_compat::sys_uname(&mut m, 1, true, |_, b| b.len() == 325), 0);
    assert_eq!(musl_compat::sys_uname(&mut m, 1, false, |_, _| true), musl_compat::EFAULT);
    let b = musl_compat::build_sysinfo_buffer(5000, 10, 4);
    assert_eq!(b.len(), 112);
    assert_eq!(b[0], 5);
    assert_eq!(
        musl_compat::sys_sysinfo(&mut m, 1, true, 5000, 10, 4, |_, b| b[0] == 5),
        0
    );
    let q = MmapRequest { addr: 0, len: 4096, prot: 3, flags: 2, fd: -1, off: 0 };
    assert_eq!(musl_compat::sys_mmap6(&mut m, q, |q| q.len + 1), 4097);
}

// --------------------------------------------------------------------------
// Booting
// --------------------------------------------------------------------------

#[test]
fn blocks_are_fetched_at_first_and_with_a_network() {
    assert!(boot::sync_due(true, false));
    assert!(boot::sync_due(false, true));
    assert!(!boot::sync_due(false, false));
}

#[test]
fn panics_are_written_down() {
    let at = Registers { rip: 0xFFFF_8000_0000_1234, rsp: 0, rbp: 0xAB };
    assert_eq!(
        boot::crash_dump("it broke", Some(("main.rs", 12)), at, "f\ng"),
        "Kernel Panic at it broke\nmain.rs:12\nRIP=0xffff800000001234, RSP=0x0, RBP=0xab\nBacktrace:\nf\ng"
    );
    let at = Registers { rip: 16, rsp: 255, rbp: 9 };
    assert_eq!(
        boot::crash_dump("x", None, at, ""),
        "Kernel Panic at x\nunknown\nRIP=0x10, RSP=0xff, RBP=0x9\nBacktrace:\n"
    );
}

#[test]
fn boot_phases_are_timed() {
    let mut m = KernelMetrics::default();
    m.set_boot_start(100);
    m.record_phase("core", 7);
    m.record_phase("userspace", 9);
    m.record_phase("unknown", 1);
    m.set_boot_end(350);
    let s = m.snapshot();
    assert_eq!((s.phase_core_ms, s.phase_userspace_ms, s.phase_memory_ms), (7, 9, 0));
    assert_eq!(s.total_boot_ms, 250);
    m.set_boot_end(50);
    assert_eq!(m.snapshot().total_boot_ms, 0);
}

#[test]
fn boot_settings_by_default() {
    let c = KernelConfig::default();
    assert_eq!(c.log_filter(), "iona=info");
    assert_eq!(KernelConfig { log_level: Level::Trace, ..KernelConfig::default() }.log_filter(), "iona=debug,info");
    assert_eq!(boot::chain_rpc(None, &c), "http://chain.iona.network:9001");
    assert_eq!(boot::chain_rpc(Some([10, 0, 200, 7]), &c), "http://10.0.200.7:9001");
    assert_eq!(boot::chain_address(None, [192, 168, 0, 1]), [192, 168, 0, 1]);
    let off = KernelConfig { enable_seccomp: false, enable_kaslr: false, ..KernelConfig::default() };
    assert_eq!(
        off.hardening(),
        vec![
            Hardening::StackCanary,
            Hardening::Aslr,
            Hardening::SecureBoot,
            Hardening::Keystore,
            Hardening::IoProtection,
            Hardening::SmepSmap
        ]
    );
}

#[test]
fn boot_tries_drivers_in_order() {
    let nvme = PciDevice {
        vendor_id: 0x8086,
        class: 1,
        subclass: 8,
        prog_if: 2,
        virtio_blk: false,
        virtio_net: false,
    };
    let devs = vec![nvme, nvme];
    let mut scan = BusScan::new();
    assert_eq!(scan.next_probe(&devs), Some((0, Driver::Nvme)));
    scan.tried(Driver::Nvme, true);
    assert_eq!(scan.next_probe(&devs), Some((0, Driver::E1000)));
    scan.tried(Driver::E1000, false);
    assert_eq!(scan.next_probe(&devs), Some((1, Driver::E1000)));
    assert_eq!(scan.next_probe(&devs), None);
    assert!(scan.found.has_disk);
    assert!(!scan.found.has_net);
}

#[test]
fn boot_starts_daemons() {
    assert_eq!(boot::daemons(false).len(), 4);
    let all = boot::daemons(true);
    assert_eq!(all[4], Daemon::BlockSync);
    assert_eq!((all[1].name(), all[1].priority()), ("wait-wakeup", 4));
    assert_eq!(NodeTask::choose_task(true, true).name(), "iona-node-r3");
    assert_eq!(NodeTask::choose_task(true, false).name(), "iona-node");
}

#[test]
fn boot_stack_canary() {
    assert_eq!(boot::init_stack_canary(0), 0xDEAD_BEEF_CAFE_BABE ^ 0xA5A5_A5A5_A5A5_A5A5);
    assert_eq!(
        boot::init_stack_canary(1),
        0x517CC1B727220A95u64.wrapping_add(0xDEAD_BEEF_CAFE_BABE) ^ 0xA5A5_A5A5_A5A5_A5A5
    );
}

#[test]
fn boot_lines_of_the_monitor() {
    assert_eq!(
        boot::monitor_line(3, 61_007, 2, 5, 257, true),
        "Monitor #3: uptime=61.007s, tasks=2/5 ready/blocked, memory=1.00 MiB used, net=up"
    );
    let used: u64 = 12_345;
    assert_eq!(
        boot::monitor_line(0, 0, 0, 0, used, false),
        format!(
            "Monitor #0: uptime=0.000s, tasks=0/0 ready/blocked, memory={:.2} MiB used, net=down",
            (used * 4096) as f64 / 1_048_576.0
        )
    );
}

#[test]
fn boot_stub_keeps_its_times() {
    let mut s = StubNode::new();
    let d = s.tick(999, true);
    assert!(!d.reconcile && !d.attest && !d.gossip && !d.heartbeat);
    let d = s.tick(30_000, true);
    assert!(d.reconcile && !d.attest && d.gossip && d.heartbeat);
    assert_eq!(s.height, 1);
    let d = s.tick(30_999, true);
    assert!(!d.gossip);
    let d = s.tick(60_000, false);
    assert!(d.reconcile && d.attest && !d.gossip && d.heartbeat);
    assert_eq!(s.heartbeat_line(256), "Stub heartbeat: height=2, memory=1.0 MiB");
}

#[test]
fn boot_panic_screen() {
    assert!(boot::bsod_screen("m", "l", 0, 0).is_empty());
    let ops = boot::bsod_screen(&"x".repeat(80), "here", 640, 480);
    assert_eq!(ops.len(), 9);
    match &ops[5] {
        DrawOp::Text { text, x, y, .. } => {
            assert_eq!(text.len(), 72);
            assert_eq!((*x, *y), (320 - 288, 240));
        }
        _ => panic!("expected a text"),
    }
    match &ops[6] {
        DrawOp::Text { text, x, y, fg, .. } => {
            assert_eq!((text.as_str(), *x, *y, *fg), ("here", 304, 260, 0x8899BB));
        }
        _ => panic!("expected a text"),
    }
}
