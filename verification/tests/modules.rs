//! Settings, counters and managers of whole subsystems.
use iona::io::console::ConsoleConfig;
use iona::io::{IoConfig, IoManager, IoMetrics};
use iona::memory;
use iona::mm;

#[test]
fn test_config_validation() {
    let config = ConsoleConfig::default();
    assert!(config.validate().is_ok());

    let mut bad = config.clone();
    bad.cols = 0;
    assert!(bad.validate().is_err());

    let mut bad2 = config;
    bad2.font_width = 0;
    assert!(bad2.validate().is_err());
}

#[test]
fn mod_test_config_validation() {
    let config = IoConfig::default();
    assert!(config.validate().is_ok());

    let config = memory::MemoryConfig::default();
    assert!(config.validate().is_ok());

    let mut bad = config.clone();
    bad.heap_size = 0;
    assert!(bad.validate().is_err());

    let mut bad2 = config;
    bad2.heap_start = 1;
    assert!(bad2.validate().is_err());

    let mut config = mm::MemoryConfig::default();
    assert!(config.validate().is_ok());

    config.pressure_thresholds.moderate = 1000;
    config.pressure_thresholds.high = 1500;
    assert!(config.validate().is_err());

    config.pressure_thresholds.moderate = 2000;
    config.pressure_thresholds.high = 1500;
    config.pressure_thresholds.critical = 1000;
    assert!(config.validate().is_ok());
}

#[test]
fn test_metrics() {
    let mut metrics = IoMetrics::default();
    metrics.inc_serial_write();
    metrics.inc_fb_present();
    let snap = metrics.snapshot();
    assert_eq!(snap.serial_writes, 1);
    assert_eq!(snap.framebuffer_presents, 1);
}

#[test]
fn mod_test_metrics() {
    let mut metrics = mm::MemoryMetrics::default();
    metrics.inc_alloc(4096);
    metrics.inc_free(4096);
    metrics.inc_oom();
    let snap = metrics.snapshot();
    assert_eq!(snap.total_allocations, 1);
    assert_eq!(snap.total_frees, 1);
    assert_eq!(snap.total_bytes_allocated, 4096);
    assert_eq!(snap.total_bytes_freed, 4096);
    assert_eq!(snap.oom_events, 1);
}

#[test]
fn mod_test_manager_creation() {
    let config = IoConfig::default();
    let manager = IoManager::new(config);
    assert!(!manager.is_initialised());
    assert_eq!(manager.config().serial_enabled, true);
}

#[test]
fn test_manager_creation() {
    let config = mm::MemoryConfig::default();
    let manager = mm::MemoryManager::new(config);
    assert_eq!(manager.config().pressure_thresholds.moderate, 2000);
    let snap = manager.metrics_snapshot();
    assert_eq!(snap.total_allocations, 0);
}
