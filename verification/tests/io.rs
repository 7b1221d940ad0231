//! Console, framebuffer, kernel log and serial port.
use iona::io;
use iona::io::console;
use iona::io::console::{
    Cell, Console, ConsoleConfig, ConsoleError, ConsoleManager, ConsoleMetrics, ConsoleState,
    Cursor,
};
use iona::io::framebuffer;
use iona::io::framebuffer::{
    BackBuffer, DirtyList, DirtyRect, Font, FramebufferConfig, FramebufferError,
    FramebufferMetrics, FramebufferPresenter, Glyph, HardwareFb, PixelFormat,
};
use iona::io::klog;
use iona::io::klog::{LogConfig, LogEntry, LogError, LogLevel, LogManager, LogMetrics, LogRing};
use iona::io::serial;
use iona::io::serial::{
    BaudRate, Parity, PortWrite, SerialConfig, SerialManager, SerialMetrics, SerialPort,
};
use iona::io::{IoConfig, IoManager};

// --------------------------------------------------------------------------
// Console
// --------------------------------------------------------------------------

#[test]
fn test_cursor_movement() {
    let config = ConsoleConfig::default();
    let mut state = ConsoleState::new(&config);
    assert_eq!(state.cursor.col, 0);
    assert_eq!(state.cursor.row, 0);
    state.move_cursor(5, 3);
    assert_eq!(state.cursor.col, 5);
    assert_eq!(state.cursor.row, 3);
    state.move_cursor_relative(-2, 1);
    assert_eq!(state.cursor.col, 3);
    assert_eq!(state.cursor.row, 4);
}

#[test]
fn test_ansi_parse() {
    let config = ConsoleConfig::default();
    let mut state = ConsoleState::new(&config);
    let mut metrics = ConsoleMetrics::default();
    console::parse_and_apply(&mut state, "[31m", &config, &mut metrics).unwrap();
    assert_eq!(state.fg, 0xF85149);
    console::parse_and_apply(&mut state, "[0m", &config, &mut metrics).unwrap();
    assert_eq!(state.fg, config.default_fg);
}

fn small_console() -> Console {
    let mut config = ConsoleConfig::default();
    config.cols = 4;
    config.rows = 3;
    let mut c = Console::new(config);
    c.init().unwrap();
    c
}

fn row_text(c: &Console, row: usize) -> String {
    c.state.cells[row].iter().map(|cell| cell.ch as char).collect()
}

#[test]
fn console_wraps_and_scrolls() {
    let mut c = small_console();
    c.write("abcdef");
    assert_eq!(row_text(&c, 0), "abcd");
    assert_eq!(row_text(&c, 1), "ef  ");
    assert_eq!(c.cursor(), Cursor { col: 2, row: 1 });
    c.write("\nx\ny");
    assert_eq!(row_text(&c, 0), "ef  ");
    assert_eq!(row_text(&c, 1), "x   ");
    assert_eq!(row_text(&c, 2), "y   ");
    assert_eq!(c.metrics().newlines, 2);
}

#[test]
fn commands_move_the_cursor_on_the_screen() {
    let config = ConsoleConfig { cols: 10, rows: 5, ..ConsoleConfig::default() };
    let mut metrics = ConsoleMetrics::default();
    let mut s = ConsoleState::new(&config);
    let cells = s.cells.clone();
    let at = |s: &ConsoleState| (s.cursor.row, s.cursor.col);
    let mut apply = |s: &mut ConsoleState, c: char, p: Vec<usize>| {
        console::apply_command(s, c, &p, &config, &mut metrics)
    };
    apply(&mut s, 'H', vec![3, 4]);
    assert_eq!(at(&s), (2, 3));
    apply(&mut s, 'A', vec![]);
    apply(&mut s, 'C', vec![2]);
    assert_eq!(at(&s), (1, 5));
    apply(&mut s, 'B', vec![0x7FFF_FFFF]);
    apply(&mut s, 'D', vec![0x7FFF_FFFF]);
    assert_eq!(at(&s), (4, 0));
    apply(&mut s, 'f', vec![6, 1]);
    assert_eq!(at(&s), (4, 0));
    apply(&mut s, 'f', vec![0]);
    assert_eq!(at(&s), (0, 0));
    assert!(s.cells == cells);
}

#[test]
fn console_parts_make_the_whole() {
    let mut a = small_console();
    let mut b = small_console();
    a.write("ab\u{1b}[31mc\nd");
    b.write("ab\u{1b}[3");
    b.write("1mc\nd");
    for r in 0..3 {
        assert_eq!(row_text(&a, r), row_text(&b, r));
    }
    assert_eq!(a.state.fg, b.state.fg);
    assert_eq!(a.state.fg, 0xF85149);
    assert_eq!(a.cursor(), b.cursor());
}

#[test]
fn console_erases_with_backspace() {
    let mut c = small_console();
    c.write("ab\u{8}");
    assert_eq!(row_text(&c, 0), "a   ");
    assert_eq!(c.cursor(), Cursor { col: 1, row: 0 });
    assert_eq!(c.metrics().backspaces, 1);
}

#[test]
fn console_clears_and_goes_home() {
    let mut c = small_console();
    c.write("abc\u{1b}[2J");
    assert_eq!(row_text(&c, 0), "    ");
    c.set_cursor(3, 2).unwrap();
    c.clear();
    assert_eq!(c.cursor(), Cursor { col: 0, row: 0 });
    assert_eq!(c.metrics().clears, 2);
}

#[test]
fn console_refuses_a_cursor_outside() {
    let mut c = small_console();
    match c.set_cursor(4, 0) {
        Err(ConsoleError::OutOfBounds { row, col }) => assert_eq!((row, col), (0, 4)),
        _ => panic!("expected an error"),
    }
    assert!(c.set_cursor(3, 2).is_ok());
}

#[test]
fn console_line_is_filled() {
    let mut c = small_console();
    for ch in ['w', 'x', 'y'] {
        c.write_one(ch);
    }
    assert_eq!(row_text(&c, 0), "wxy ");
    let frame = c.render_all();
    assert_eq!(frame.cells.len(), 12);
    assert_eq!((frame.width, frame.height), (32, 48));
    assert_eq!(frame.cells[1].x, 8);
    assert_eq!(frame.cells[1].ch, 'x');
    assert_eq!(frame.cells[4].y, 16);
}

#[test]
fn console_that_is_not_set_up_ignores_text() {
    let mut c = Console::new(ConsoleConfig::default());
    assert_eq!(c.write("abc"), 0);
    assert_eq!(c.cursor(), Cursor { col: 0, row: 0 });
    assert!(!c.is_initialised());
}

#[test]
fn console_colours_of_cells() {
    let mut c = small_console();
    c.write("\u{1b}[42mz");
    assert_eq!(c.state.cells[0][0].ch, b'z');
    assert_eq!(c.state.cells[0][0].bg, c.state.bg);
    assert_ne!(c.state.bg, c.config.default_bg);
    let blank = Cell::default();
    assert_eq!((blank.ch, blank.fg, blank.bg), (b' ', 0xE6EDF3, 0x0F1923));
}

#[test]
fn console_instance_prints_its_banner() {
    let m = console::init(None);
    assert!(m.is_initialised());
    assert_eq!(m.metrics_snapshot().chars > 0, true);
    let again = ConsoleManager::default();
    assert_eq!(again.console.cols(), 128);
    assert_eq!(again.console.rows(), 48);
}

// --------------------------------------------------------------------------
// Framebuffer
// --------------------------------------------------------------------------

#[test]
fn test_dirty_rect_merge() {
    let r1 = DirtyRect { x: 0, y: 0, w: 10, h: 10 };
    let r2 = DirtyRect { x: 5, y: 5, w: 10, h: 10 };
    assert!(r1.overlaps_or_adjacent(&r2));
    let merged = r1.merge(&r2);
    assert_eq!(merged.x, 0);
    assert_eq!(merged.y, 0);
    assert_eq!(merged.w, 15);
    assert_eq!(merged.h, 15);
}

#[test]
fn test_dirty_rect_adjacent() {
    let r1 = DirtyRect { x: 0, y: 0, w: 10, h: 10 };
    let r2 = DirtyRect { x: 10, y: 0, w: 5, h: 10 };
    assert!(r1.overlaps_or_adjacent(&r2));
    let merged = r1.merge(&r2);
    assert_eq!(merged.w, 15);
}

#[test]
fn test_dirty_rect_no_overlap() {
    let r1 = DirtyRect { x: 0, y: 0, w: 10, h: 10 };
    let r2 = DirtyRect { x: 20, y: 20, w: 5, h: 5 };
    assert!(!r1.overlaps_or_adjacent(&r2));
}

#[test]
fn framebuffer_test_config_validation() {
    let config = FramebufferConfig::default();
    assert!(config.validate().is_ok());

    let mut bad = config.clone();
    bad.max_dirty_rects = 0;
    assert!(bad.validate().is_err());
}

fn screen(format: PixelFormat) -> (FramebufferPresenter, Vec<u8>) {
    let hw = HardwareFb { width: 8, height: 4, stride: 8, bpp: 4, format };
    (framebuffer::init(hw), vec![0; 8 * 4 * 4])
}

#[test]
fn framebuffer_shows_what_was_drawn() {
    let (mut p, mut vram) = screen(PixelFormat::Rgb);
    framebuffer::present(&mut p, &mut vram);
    framebuffer::fill_rect(&mut p, 1, 1, 2, 2, 0x11, 0x22, 0x33);
    assert_eq!(p.back_buffer().get_pixel(1, 1), 0x112233);
    assert_eq!(vram[(8 + 1) * 4], 0);
    framebuffer::present(&mut p, &mut vram);
    assert_eq!(&vram[(8 + 1) * 4..(8 + 1) * 4 + 3], &[0x11, 0x22, 0x33]);
    assert_eq!(&vram[(8 + 3) * 4..(8 + 3) * 4 + 3], &[0, 0, 0]);
    assert_eq!(p.metrics().frames_presented, 3);
    assert_eq!(p.metrics().full_blits, 1);
    assert_eq!(p.metrics().partial_blits, 2);
}

#[test]
fn framebuffer_orders_the_bytes_of_a_pixel() {
    let (mut p, mut vram) = screen(PixelFormat::Bgr);
    framebuffer::set_pixel(&mut p, 0, 0, 1, 2, 3);
    framebuffer::present_full(&mut p, &mut vram);
    assert_eq!(&vram[0..3], &[3, 2, 1]);
}

#[test]
fn framebuffer_ignores_what_is_off_the_screen() {
    let (mut p, mut vram) = screen(PixelFormat::Rgb);
    framebuffer::set_pixel(&mut p, 100, 100, 9, 9, 9);
    framebuffer::present_full(&mut p, &mut vram);
    assert!(vram.iter().all(|&b| b == 0 || b == 255));
    assert_eq!(framebuffer::size(&p), (8, 4));
}

#[test]
fn framebuffer_blends_by_alpha() {
    let (mut p, _) = screen(PixelFormat::Rgb);
    framebuffer::clear(&mut p, 0x000000);
    framebuffer::blend_pixel(&mut p, 0, 0, 255, 255, 255, 0);
    assert_eq!(p.back_buffer().get_pixel(0, 0), 0);
    framebuffer::blend_pixel(&mut p, 0, 0, 255, 128, 1, 255);
    assert_eq!(p.back_buffer().get_pixel(0, 0), 0xFF8001);
}

#[test]
fn framebuffer_draws_the_edge_of_a_rectangle() {
    let (mut p, _) = screen(PixelFormat::Rgb);
    framebuffer::draw_rect(&mut p, 1, 0, 4, 3, 0xAA, 0xBB, 0xCC);
    assert_eq!(p.back_buffer().get_pixel(1, 0), 0xAABBCC);
    assert_eq!(p.back_buffer().get_pixel(4, 2), 0xAABBCC);
    assert_eq!(p.back_buffer().get_pixel(2, 1), 0);
    framebuffer::hline(&mut p, 0, 3, 8, 1, 1, 1);
    framebuffer::vline(&mut p, 7, 0, 4, 2, 2, 2);
    assert_eq!(p.back_buffer().get_pixel(0, 3), 0x010101);
    assert_eq!(p.back_buffer().get_pixel(7, 3), 0x020202);
}

#[test]
fn framebuffer_draws_glyphs() {
    let (mut p, _) = screen(PixelFormat::Rgb);
    let mut rows = vec![0u8; 16];
    rows[0] = 0b1000_0001;
    let font = Font { glyphs: vec![Glyph { ch: 'A', rows }] };
    framebuffer::draw_text_col(&mut p, &font, 0, 0, "A", 5, 6, 7);
    let lit: Vec<usize> = (0..8).filter(|&x| p.back_buffer().get_pixel(x, 0) == 0x050607).collect();
    assert_eq!(lit, vec![0, 7]);
    framebuffer::draw_text_col(&mut p, &font, 1, 0, "A", 8, 9, 10);
    let lit: Vec<usize> = (0..8).filter(|&x| p.back_buffer().get_pixel(x, 0) == 0x08090A).collect();
    assert_eq!(lit, vec![2]);
    assert!(font.get_glyph('B').is_none());
}

#[test]
fn framebuffer_without_hardware_cannot_present() {
    let mut p = FramebufferPresenter::new(FramebufferConfig::default());
    let mut vram: Vec<u8> = Vec::new();
    assert!(matches!(p.present_full(&mut vram), Err(FramebufferError::NotInitialised)));
}

#[test]
fn dirty_areas_stay_on_the_screen() {
    let mut metrics = FramebufferMetrics::default();
    let mut list = DirtyList::new(&FramebufferConfig::default());
    list.clear();
    list.push(DirtyRect { x: 90, y: 90, w: 50, h: 1 }, 100, 100, &mut metrics);
    list.push(DirtyRect { x: 95, y: 80, w: 1, h: 500 }, 100, 100, &mut metrics);
    list.push(DirtyRect { x: 0, y: 0, w: usize::MAX, h: 1 }, 100, 100, &mut metrics);
    list.push(DirtyRect { x: 100, y: 0, w: 1, h: 1 }, 100, 100, &mut metrics);
    list.push(DirtyRect { x: 5, y: 5, w: 0, h: 9 }, 100, 100, &mut metrics);
    assert_eq!(list.count(), 2);
    for r in list.rects() {
        assert!(r.w > 0 && r.h > 0 && r.x + r.w <= 100 && r.y + r.h <= 100);
    }
    assert_eq!(list.rects()[0], DirtyRect { x: 90, y: 80, w: 10, h: 20 });
}

#[test]
fn dirty_list_merges_and_overflows() {
    let mut config = FramebufferConfig::default();
    config.max_dirty_rects = 2;
    let mut metrics = FramebufferMetrics::default();
    let mut list = DirtyList::new(&config);
    assert!(list.is_full());
    list.clear();
    assert!(!list.is_dirty());
    list.push(DirtyRect { x: 0, y: 0, w: 2, h: 2 }, 100, 100, &mut metrics);
    list.push(DirtyRect { x: 1, y: 1, w: 2, h: 2 }, 100, 100, &mut metrics);
    assert_eq!(list.count(), 1);
    assert_eq!(list.rects()[0], DirtyRect { x: 0, y: 0, w: 3, h: 3 });
    assert_eq!(metrics.merged_rects, 1);
    list.push(DirtyRect { x: 50, y: 50, w: 1, h: 1 }, 100, 100, &mut metrics);
    list.push(DirtyRect { x: 80, y: 80, w: 1, h: 1 }, 100, 100, &mut metrics);
    assert!(list.is_full());
}

#[test]
fn back_buffer_keeps_pixels() {
    let mut b = BackBuffer::new(3, 2);
    b.set_pixel(2, 1, 7);
    assert_eq!(b.get_pixel(2, 1), 7);
    assert_eq!(b.get_pixel(9, 9), 0);
    b.clear(5);
    assert_eq!(b.get_pixel(0, 0), 5);
}

// --------------------------------------------------------------------------
// Kernel log
// --------------------------------------------------------------------------

#[test]
fn test_log_level_ordering() {
    assert!(LogLevel::Debug < LogLevel::Info);
    assert!(LogLevel::Info < LogLevel::Warn);
    assert!(LogLevel::Warn < LogLevel::Error);
}

#[test]
fn test_log_level_prefix() {
    assert_eq!(LogLevel::Debug.prefix(), "[DBG] ");
    assert_eq!(LogLevel::Error.prefix(), "[ERR] ");
}

#[test]
fn test_ring_basic() {
    let config = LogConfig { ring_capacity: 3, ..Default::default() };
    let mut manager = LogManager::new(config);
    manager.init();

    manager.log(LogLevel::Info, "msg1", 0).unwrap();
    manager.log(LogLevel::Info, "msg2", 0).unwrap();
    manager.log(LogLevel::Info, "msg3", 0).unwrap();

    assert_eq!(manager.entry_count(), 3);
    let dump = manager.dump(1024);
    assert!(dump.contains("msg1"));
    assert!(dump.contains("msg2"));
    assert!(dump.contains("msg3"));

    manager.log(LogLevel::Info, "msg4", 0).unwrap();
    assert_eq!(manager.entry_count(), 3);
    let dump2 = manager.dump(1024);
    assert!(!dump2.contains("msg1"));
    assert!(dump2.contains("msg2"));
    assert!(dump2.contains("msg3"));
    assert!(dump2.contains("msg4"));
}

#[test]
fn test_min_level_filtering() {
    let config = LogConfig { min_level: LogLevel::Warn, ..Default::default() };
    let mut manager = LogManager::new(config);
    manager.init();

    manager.log(LogLevel::Info, "info", 0).unwrap();
    manager.log(LogLevel::Warn, "warn", 0).unwrap();
    manager.log(LogLevel::Error, "error", 0).unwrap();

    let dump = manager.dump(1024);
    assert!(!dump.contains("info"));
    assert!(dump.contains("warn"));
    assert!(dump.contains("error"));
}

#[test]
fn klog_test_metrics() {
    let config = LogConfig::default();
    let mut manager = LogManager::new(config);
    manager.init();

    manager.log(LogLevel::Info, "test", 0).unwrap();
    manager.log(LogLevel::Error, "err", 0).unwrap();

    let snap = manager.metrics_snapshot();
    assert_eq!(snap.total_entries, 2);
    assert_eq!(snap.info_count, 1);
    assert_eq!(snap.error_count, 1);
}

#[test]
fn klog_test_config_validation() {
    let config = LogConfig::default();
    assert!(config.validate().is_ok());

    let mut bad = config.clone();
    bad.ring_capacity = 0;
    assert!(bad.validate().is_err());

    let mut bad2 = config;
    bad2.persist_path = "".to_string();
    assert!(bad2.validate().is_err());
}

#[test]
fn log_lines_are_exact() {
    let e = LogEntry { level: LogLevel::Warn, ts_ms: 12345, msg: "hot".to_string() };
    let with = e.line(true);
    let without = e.line(false);
    assert!(with.contains("hot"));
    assert!(with.len() > without.len());
    assert!(without.contains("hot"));
    assert!(!without.contains("12"));
}

#[test]
fn log_says_where_a_line_goes() {
    let mut m = LogManager::default();
    m.init();
    let out = m.log(LogLevel::Error, "bad", 1).unwrap();
    assert!(out.serial.unwrap().contains("bad"));
    assert!(out.persist.unwrap().contains("bad"));
    let out = m.log(LogLevel::Info, "fine", 2).unwrap();
    assert!(out.persist.is_none());
    let out = m.log(LogLevel::Debug, "quiet", 3).unwrap();
    assert!(out.serial.is_none());
    m.persist_failed();
    assert_eq!(m.metrics().persist_failures, 1);
    assert_eq!(klog::entry_count(&m), 2);
    klog::clear_logs(&mut m);
    assert_eq!(klog::entry_count(&m), 0);
}

#[test]
fn log_dump_fits_its_limit() {
    let mut m = LogManager::default();
    m.init();
    for i in 0..50 {
        klog::klog(&mut m, LogLevel::Info, "0123456789", i);
    }
    assert!(klog::drain_to_string(&m, 100).len() <= 100);
    assert!(klog::log_stats(&m).ring_usage == 50);
    assert_eq!(klog::log_metrics(&m).info_count, 50);
}

#[test]
fn log_levels_by_name() {
    assert_eq!(LogLevel::from_str("warn"), Some(LogLevel::Warn));
    assert_eq!(LogLevel::from_str("loud"), None);
    assert_eq!(LogLevel::Error.as_str().to_lowercase().contains("err"), true);
    assert!(LogLevel::Debug.rank() < LogLevel::Error.rank());
}

#[test]
fn log_ring_keeps_the_latest() {
    let config = LogConfig { ring_capacity: 1, ..Default::default() };
    let mut metrics = LogMetrics::default();
    let mut ring = LogRing::new(&config);
    for s in ["a", "b"] {
        let r = ring.push(
            LogEntry { level: LogLevel::Info, ts_ms: 0, msg: s.to_string() },
            &mut metrics,
        );
        assert!(!matches!(r, Err(LogError::RingFull)));
    }
    assert_eq!(ring.len(), 1);
    assert_eq!(ring.entries[0].msg, "b");
    assert_eq!(metrics.dropped_count, 1);
}

// --------------------------------------------------------------------------
// Serial port
// --------------------------------------------------------------------------

#[test]
fn serial_test_config_validation() {
    let config = SerialConfig::default();
    assert!(config.validate().is_ok());

    let mut bad = config.clone();
    bad.port_base = 0;
    assert!(bad.validate().is_err());

    let mut bad2 = config;
    bad2.data_bits = 9;
    assert!(bad2.validate().is_err());
}

#[test]
fn serial_test_metrics() {
    let mut metrics = SerialMetrics::default();
    metrics.inc_write(10);
    metrics.inc_read(5);
    let snap = metrics.snapshot();
    assert_eq!(snap.writes, 1);
    assert_eq!(snap.bytes_written, 10);
    assert_eq!(snap.reads, 1);
    assert_eq!(snap.bytes_read, 5);
}

#[test]
fn serial_port_is_set_up_by_port_writes() {
    let mut port = SerialPort::new(SerialConfig::default());
    let w = port.init().unwrap();
    assert!(port.is_initialised());
    assert_eq!(w[0], PortWrite { port: 0x3F9, value: 0x00 });
    assert_eq!(w[1], PortWrite { port: 0x3FB, value: 0x80 });
    assert_eq!(w[2], PortWrite { port: 0x3F8, value: 3 });
    assert_eq!(w[3], PortWrite { port: 0x3F9, value: 0 });
    assert_eq!(w[4], PortWrite { port: 0x3FB, value: 0x03 });
    assert_eq!(w[5], PortWrite { port: 0x3FA, value: 0xC7 });
    assert_eq!(w[6], PortWrite { port: 0x3FC, value: 0x0B });
}

#[test]
fn serial_triggers_keep_to_the_threshold() {
    for (threshold, code) in [(0, 3), (1, 0), (3, 0), (4, 1), (7, 1), (8, 2), (13, 2), (14, 3)] {
        let config = SerialConfig { fifo_threshold: threshold, ..SerialConfig::default() };
        let w = SerialPort::new(config).init().unwrap();
        assert_eq!(w[5].value, 0x07 + code * 64);
    }
}

#[test]
fn serial_divisors_give_the_rate() {
    assert_eq!(BaudRate::Baud115200.divisor(), 1);
    assert_eq!(BaudRate::Baud38400.divisor(), 3);
    assert_eq!(BaudRate::Baud9600.divisor(), 12);
    assert_eq!(BaudRate::Baud2400.divisor(), 48);
    assert_eq!(Parity::default(), Parity::NoParity);
}

#[test]
fn serial_line_feeds_follow_returns() {
    let port = SerialPort::new(SerialConfig::default());
    assert_eq!(serial::write_str(&port, "a\nb"), b"a\r\nb".to_vec());
    assert_eq!(serial::write_byte(&port, 7), PortWrite { port: 0x3F8, value: 7 });
}

#[test]
fn serial_reads_only_when_ready() {
    let port = SerialPort::new(SerialConfig::default());
    assert_eq!(serial::try_read_byte(&port, 0x01, 42), Some(42));
    assert_eq!(serial::try_read_byte(&port, 0x20, 42), None);
    assert!(port.line_ready(0x20));
    assert!(!port.line_ready(0x01));
    assert_eq!(port.status_port(), 0x3FD);
}

#[test]
fn serial_manager_is_set_up_once() {
    let mut m = SerialManager::default();
    assert!(!m.init().unwrap().is_empty());
    assert!(m.init().unwrap().is_empty());
    assert_eq!(m.write("hi"), b"hi".to_vec());
    assert_eq!(m.metrics_snapshot().bytes_written, 2);
    let mut done = false;
    assert!(!serial::init(&mut done).is_empty());
    assert!(done);
    assert!(serial::init(&mut done).is_empty());
}

// --------------------------------------------------------------------------
// All of it
// --------------------------------------------------------------------------

#[test]
fn io_manager_sets_devices_up_once() {
    let mut m = IoManager::new(IoConfig::default());
    let hw = HardwareFb { width: 16, height: 16, stride: 16, bpp: 4, format: PixelFormat::Rgb };
    let d = m.init(Some(hw)).unwrap();
    assert!(d.framebuffer.is_some());
    assert!(d.console.is_some());
    let d2 = m.init(Some(hw)).unwrap();
    assert!(d2.framebuffer.is_none());
    let none = io::init(None);
    assert!(none.framebuffer.is_none() && none.console.is_none());
}

#[test]
fn io_manager_prints_on_the_console() {
    let mut m = IoManager::new(IoConfig::default());
    let mut c = small_console();
    m.puts(&mut c, "hey");
    assert_eq!(row_text(&c, 0), "hey ");
    assert_eq!(m.metrics_snapshot().console_chars, 3);
    io::console_clear(&mut m, &mut c);
    assert_eq!(row_text(&c, 0), "    ");
    io::console_print(&m, &mut c, "7 up");
    assert_eq!(row_text(&c, 0), "7 up");
    assert_eq!(m.metrics_snapshot().console_chars, 3);
    let port = SerialPort::new(SerialConfig::default());
    assert_eq!(io::serial_write(&mut m, &port, "x\n"), Some(b"x\r\n".to_vec()));
    assert_eq!(m.metrics().serial_writes, 1);
}

#[test]
fn disabled_console_prints_nothing() {
    let mut config = IoConfig::default();
    config.console_enabled = false;
    let m = IoManager::new(config);
    let mut c = small_console();
    assert_eq!(io::console_print(&m, &mut c, "7 up"), 0);
    assert_eq!(row_text(&c, 0), "    ");
}

#[test]
fn console_flush_presents() {
    let (mut p, mut vram) = screen(PixelFormat::Rgb);
    framebuffer::fill_rect(&mut p, 0, 0, 1, 1, 0x11, 0x22, 0x33);
    small_console().flush(&mut p, &mut vram);
    assert_eq!(&vram[0..3], &[0x11, 0x22, 0x33]);
}

#[test]
fn picture_at_rest_is_not_copied() {
    let (mut p, mut vram) = screen(PixelFormat::Rgb);
    framebuffer::fill_rect(&mut p, 0, 0, 2, 2, 0x11, 0x22, 0x33);
    p.present(&mut vram).unwrap();
    let copied = p.metrics().bytes_copied;
    let frames = p.metrics().frames_presented;
    assert!(copied > 0);
    p.present(&mut vram).unwrap();
    assert_eq!(p.metrics().bytes_copied, copied);
    assert_eq!(p.metrics().frames_presented, frames);
}
