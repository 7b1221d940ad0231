//! Input and output: console, framebuffer, kernel log, serial ports, and the
//! manager that decides which of them are used.
pub mod console;
pub mod framebuffer;
pub mod klog;
pub mod serial;

use crate::io::console::{Console, ConsoleManager, ConsoleMetrics, Cursor, Screen};
use crate::io::framebuffer::{FramebufferPresenter, FramebufferResult, HardwareFb};
use crate::io::serial::SerialPort;
use vstd::prelude::*;
use vstd::string::*;
use vstd::utf8::*;

verus! {

/// Configuration of input and output.
#[derive(Debug, Clone, Copy, PartialEq, Eq)]
pub struct IoConfig {
    pub serial_enabled: bool,
    pub framebuffer_enabled: bool,
    pub console_enabled: bool,
    pub collect_metrics: bool,
    pub log_operations: bool,
    pub default_console_color: u32,
}

impl Default for IoConfig {
    fn default() -> (r: Self)
        ensures
            r == (IoConfig {
                serial_enabled: true,
                framebuffer_enabled: true,
                console_enabled: true,
                collect_metrics: true,
                log_operations: false,
                default_console_color: 0xFFFFFF,
            }),
    {
        IoConfig {
            serial_enabled: true,
            framebuffer_enabled: true,
            console_enabled: true,
            collect_metrics: true,
            log_operations: false,
            default_console_color: 0xFFFFFF,
        }
    }
}

impl IoConfig {
    /// Every configuration is valid.
    pub fn validate(&self) -> (r: Result<(), &'static str>)
        ensures
            r is Ok,
    {
        Ok(())
    }

    pub fn with_metrics(self) -> (r: Self)
        ensures
            r == (IoConfig { collect_metrics: true, ..self }),
    {
        IoConfig { collect_metrics: true, ..self }
    }
}

#[derive(Debug, PartialEq, Eq)]
pub enum IoError {
    Serial(String),
    Framebuffer(String),
    Console(String),
    Config(String),
}

pub type IoResult<T> = Result<T, IoError>;

/// Counters of input and output.
#[derive(Debug, Clone, Copy, PartialEq, Eq)]
pub struct IoMetrics {
    pub serial_writes: u64,
    pub framebuffer_presents: u64,
    pub console_chars: u64,
    pub console_lines: u64,
    pub draw_calls: u64,
}

impl Default for IoMetrics {
    fn default() -> (r: Self)
        ensures
            r == (IoMetrics {
                serial_writes: 0,
                framebuffer_presents: 0,
                console_chars: 0,
                console_lines: 0,
                draw_calls: 0,
            }),
    {
        IoMetrics {
            serial_writes: 0,
            framebuffer_presents: 0,
            console_chars: 0,
            console_lines: 0,
            draw_calls: 0,
        }
    }
}

impl IoMetrics {
    pub fn inc_serial_write(&mut self)
        ensures
            *final(self) == (IoMetrics {
                serial_writes: old(self).serial_writes.wrapping_add(1),
                ..*old(self)
            }),
    {
        self.serial_writes = self.serial_writes.wrapping_add(1);
    }

    pub fn inc_fb_present(&mut self)
        ensures
            *final(self) == (IoMetrics {
                framebuffer_presents: old(self).framebuffer_presents.wrapping_add(1),
                ..*old(self)
            }),
    {
        self.framebuffer_presents = self.framebuffer_presents.wrapping_add(1);
    }

    pub fn inc_console_char(&mut self)
        ensures
            *final(self) == (IoMetrics {
                console_chars: old(self).console_chars.wrapping_add(1),
                ..*old(self)
            }),
    {
        self.console_chars = self.console_chars.wrapping_add(1);
    }

    pub fn inc_console_line(&mut self)
        ensures
            *final(self) == (IoMetrics {
                console_lines: old(self).console_lines.wrapping_add(1),
                ..*old(self)
            }),
    {
        self.console_lines = self.console_lines.wrapping_add(1);
    }

    pub fn inc_draw_call(&mut self)
        ensures
            *final(self) == (IoMetrics {
                draw_calls: old(self).draw_calls.wrapping_add(1),
                ..*old(self)
            }),
    {
        self.draw_calls = self.draw_calls.wrapping_add(1);
    }

    /// A copy of the counters.
    pub fn snapshot(&self) -> (r: IoMetricsSnapshot)
        ensures
            r == (IoMetricsSnapshot {
                serial_writes: self.serial_writes,
                framebuffer_presents: self.framebuffer_presents,
                console_chars: self.console_chars,
                console_lines: self.console_lines,
                draw_calls: self.draw_calls,
            }),
    {
        IoMetricsSnapshot {
            serial_writes: self.serial_writes,
            framebuffer_presents: self.framebuffer_presents,
            console_chars: self.console_chars,
            console_lines: self.console_lines,
            draw_calls: self.draw_calls,
        }
    }
}

/// A copy of [`IoMetrics`] at one moment.
#[derive(Debug, Clone, Copy, PartialEq, Eq)]
pub struct IoMetricsSnapshot {
    pub serial_writes: u64,
    pub framebuffer_presents: u64,
    pub console_chars: u64,
    pub console_lines: u64,
    pub draw_calls: u64,
}

/// The devices that initialisation sets up.
#[derive(Debug)]
pub struct IoDevices {
    pub framebuffer: Option<FramebufferPresenter>,
    pub console: Option<ConsoleManager>,
}

/// A presenter as it is set up for a screen.
pub open spec fn set_up_for(p: FramebufferPresenter, hw: HardwareFb) -> bool {
    &&& p.wf()
    &&& p.hw == Some(hw)
    &&& p.back.width == hw.width
    &&& p.back.height == hw.height
    &&& p.dirty.full
    &&& p.dirty.rects@.len() == 0
}

/// Manager of input and output.
#[derive(Debug)]
pub struct IoManager {
    pub config: IoConfig,
    pub metrics: IoMetrics,
    pub initialised: bool,
}

impl IoManager {
    pub fn new(config: IoConfig) -> (r: Self)
        ensures
            r.config == config,
            !r.initialised,
            r.metrics == (IoMetrics {
                serial_writes: 0,
                framebuffer_presents: 0,
                console_chars: 0,
                console_lines: 0,
                draw_calls: 0,
            }),
    {
        IoManager { config, metrics: IoMetrics::default(), initialised: false }
    }

    pub fn default() -> (r: Self)
        ensures
            r.config == (IoConfig {
                serial_enabled: true,
                framebuffer_enabled: true,
                console_enabled: true,
                collect_metrics: true,
                log_operations: false,
                default_console_color: 0xFFFFFF,
            }),
            !r.initialised,
            r.metrics == (IoMetrics {
                serial_writes: 0,
                framebuffer_presents: 0,
                console_chars: 0,
                console_lines: 0,
                draw_calls: 0,
            }),
    {
        Self::new(IoConfig::default())
    }

    pub fn config(&self) -> (r: &IoConfig)
        ensures
            *r == self.config,
    {
        &self.config
    }

    pub fn metrics(&self) -> (r: &IoMetrics)
        ensures
            *r == self.metrics,
    {
        &self.metrics
    }

    /// Sets up the enabled devices, once; without a screen there are none.
    pub fn init(&mut self, fb: Option<HardwareFb>) -> (r: IoResult<IoDevices>)
        requires
            fb matches Some(hw) ==> hw.width * hw.height <= usize::MAX,
        ensures
            *final(self) == (IoManager { initialised: true, ..*old(self) }),
            r matches Ok(devices) && {
                &&& devices.framebuffer is Some <==> !old(self).initialised && fb is Some
                    && old(self).config.framebuffer_enabled
                &&& devices.console is Some <==> !old(self).initialised && fb is Some
                    && old(self).config.console_enabled
                &&& devices.framebuffer matches Some(p) ==> set_up_for(p, fb->0)
                &&& devices.console matches Some(c) ==> console::at_start(c.console)
                    && c.initialised
            },
    {
        if self.initialised {
            return Ok(IoDevices { framebuffer: None, console: None });
        }
        let mut devices = IoDevices { framebuffer: None, console: None };
        match fb {
            Some(hw) => {
                if self.config.framebuffer_enabled {
                    devices.framebuffer = Some(framebuffer::init(hw));
                }
                if self.config.console_enabled {
                    devices.console = Some(console::ready_instance(None));
                }
            },
            None => {},
        }
        self.initialised = true;
        Ok(devices)
    }

    pub fn is_initialised(&self) -> (r: bool)
        ensures
            r == self.initialised,
    {
        self.initialised
    }

    pub fn metrics_snapshot(&self) -> (r: IoMetricsSnapshot)
        ensures
            r.serial_writes == self.metrics.serial_writes,
            r.framebuffer_presents == self.metrics.framebuffer_presents,
            r.console_chars == self.metrics.console_chars,
            r.console_lines == self.metrics.console_lines,
            r.draw_calls == self.metrics.draw_calls,
    {
        self.metrics.snapshot()
    }

    /// Sets all counters to 0.
    pub fn reset_metrics(&mut self)
        ensures
            *final(self) == (IoManager {
                metrics: IoMetrics {
                    serial_writes: 0,
                    framebuffer_presents: 0,
                    console_chars: 0,
                    console_lines: 0,
                    draw_calls: 0,
                },
                ..*old(self)
            }),
    {
        self.metrics = IoMetrics::default();
    }

    pub open spec fn serial_sent(
        pre: IoManager,
        post: IoManager,
        s: Seq<char>,
        r: Option<Seq<u8>>,
    ) -> bool {
        if pre.config.serial_enabled {
            &&& r == Some(serial::expanded(encode_utf8(s)))
            &&& post == (IoManager {
                metrics: IoMetrics {
                    serial_writes: pre.metrics.serial_writes.wrapping_add(1),
                    ..pre.metrics
                },
                ..pre
            })
        } else {
            r is None && post == pre
        }
    }

    /// The bytes to send over the serial port, where that is enabled.
    pub fn serial_write(&mut self, port: &SerialPort, s: &str) -> (r: Option<Vec<u8>>)
        ensures
            Self::serial_sent(*old(self), *final(self), s@, bytes_of(r)),
    {
        if self.config.serial_enabled {
            let bytes = port.write_str(s);
            self.metrics.inc_serial_write();
            Some(bytes)
        } else {
            None
        }
    }

    /// The manager after a presentation, which is counted where the framebuffer is
    /// enabled.
    pub open spec fn presented_once(self) -> IoManager {
        if self.config.framebuffer_enabled {
            IoManager {
                metrics: IoMetrics {
                    framebuffer_presents: self.metrics.framebuffer_presents.wrapping_add(1),
                    ..self.metrics
                },
                ..self
            }
        } else {
            self
        }
    }

    /// Presents what is dirty, where the framebuffer is enabled.
    pub fn present(&mut self, p: &mut FramebufferPresenter, vram: &mut [u8])
        requires
            old(p).wf(),
            old(p).hw matches Some(hw) ==> hw.wf(old(vram)@.len()),
        ensures
            *final(self) == old(self).presented_once(),
            final(p).wf(),
            final(vram)@.len() == old(vram)@.len(),
            if old(self).config.framebuffer_enabled {
                exists|r: FramebufferResult<()>| #[trigger]
                    FramebufferPresenter::presented(
                        *old(p),
                        *final(p),
                        old(vram)@,
                        final(vram)@,
                        r,
                    )
            } else {
                *final(p) == *old(p) && final(vram)@ == old(vram)@
            },
    {
        if self.config.framebuffer_enabled {
            framebuffer::present(p, vram);
            self.metrics.inc_fb_present();
        }
    }

    /// Presents the whole screen, where the framebuffer is enabled.
    pub fn present_full(&mut self, p: &mut FramebufferPresenter, vram: &mut [u8])
        requires
            old(p).wf(),
            old(p).hw matches Some(hw) ==> hw.wf(old(vram)@.len()),
        ensures
            *final(self) == old(self).presented_once(),
            final(p).wf(),
            final(vram)@.len() == old(vram)@.len(),
            if old(self).config.framebuffer_enabled {
                exists|mid: FramebufferPresenter, r: FramebufferResult<()>|
                    mid.marks() == old(p).marks().all() && mid.back == old(p).back && mid.hw
                        == old(p).hw && mid.metrics == old(p).metrics
                        && #[trigger] FramebufferPresenter::presented(
                        mid,
                        *final(p),
                        old(vram)@,
                        final(vram)@,
                        r,
                    )
            } else {
                *final(p) == *old(p) && final(vram)@ == old(vram)@
            },
    {
        if self.config.framebuffer_enabled {
            framebuffer::present_full(p, vram);
            self.metrics.inc_fb_present();
        }
    }

    /// The manager after `n` characters on the console, which are counted where the
    /// console is enabled.
    pub open spec fn printed(self, n: nat) -> IoManager {
        if self.config.console_enabled {
            IoManager {
                metrics: IoMetrics {
                    console_chars: framebuffer::counted(self.metrics.console_chars, n),
                    ..self.metrics
                },
                ..self
            }
        } else {
            self
        }
    }

    proof fn lemma_printed_once(self, n: nat)
        ensures
            self.printed(n).printed(1) == self.printed(n + 1),
    {
        let c = self.metrics.console_chars;
        assert(framebuffer::counted(framebuffer::counted(c, n), 1) == framebuffer::counted(c, n + 1));
    }

    /// Prints a character, where the console is enabled.
    pub fn putchar(&mut self, console: &mut Console, c: char)
        requires
            old(console).wf(),
            old(self).config.console_enabled ==> old(console).takes(seq![c]),
        ensures
            *final(self) == old(self).printed(1),
            final(console).wf(),
            if old(self).config.console_enabled {
                Console::wrote(*old(console), *final(console), seq![c])
            } else {
                *final(console) == *old(console)
            },
    {
        if self.config.console_enabled {
            console.write_one(c);
            self.metrics.inc_console_char();
        }
    }

    /// Prints a string character by character, where the console is enabled.
    pub fn puts(&mut self, console: &mut Console, s: &str)
        requires
            old(console).wf(),
            old(self).config.console_enabled ==> old(console).takes(s@),
        ensures
            *final(self) == old(self).printed(s@.len()),
            final(console).wf(),
            if old(self).config.console_enabled && s@.len() > 0 {
                Console::wrote(*old(console), *final(console), s@)
            } else {
                *final(console) == *old(console)
            },
    {
        let ghost t = console.term();
        proof {
            assert(s@.take(0) =~= Seq::<char>::empty());
            assert(s@.take(s@.len() as int) =~= s@);
        }
        for c in it: s.chars()
            invariant
                it.seq() == s@,
                console.wf(),
                self.config == old(self).config,
                *self == old(self).printed(it.index() as nat),
                t == old(console).term(),
                console.config == old(console).config,
                console.initialised == old(console).initialised,
                !self.config.console_enabled || it.index() == 0 ==> *console == *old(console),
                self.config.console_enabled ==> old(console).takes(s@),
                self.config.console_enabled && it.index() > 0 ==> Console::wrote(
                    *old(console),
                    *console,
                    s@.take(it.index()),
                ),
        {
            let ghost i = it.index();
            let ghost before = *console;
            let ghost config = console.config;
            proof {
                if self.config.console_enabled && console.initialised {
                    let one = seq![c];
                    let head = s@.take(i);
                    assert(s@.take(i + 1) =~= head + one);
                    console::lemma_takes_prefix(t, s@, i + 1, config);
                    console::lemma_takes_concat(t, head, one, config);
                    console::lemma_takes_settled(t.fed_all(head, config), one, config);
                    console::law_write_in_parts(t, head, one, config);
                    console::lemma_fed_concat(t, head, one, config);
                    if i == 0 {
                        assert(head =~= Seq::<char>::empty());
                    }
                }
            }
            proof {
                old(self).lemma_printed_once(i as nat);
            }
            self.putchar(console, c);
        }
    }

    /// Prints a formatted text at one go, where the console is enabled; `frames` is how
    /// often the screen was drawn.
    pub fn print(&self, console: &mut Console, text: &str) -> (frames: u64)
        requires
            old(console).wf(),
            self.config.console_enabled ==> old(console).takes(text@),
            text@.len() < u64::MAX,
        ensures
            final(console).wf(),
            if self.config.console_enabled {
                Console::wrote(*old(console), *final(console), text@) && frames == old(
                    console,
                ).frames(text@)
            } else {
                *final(console) == *old(console) && frames == 0
            },
    {
        if self.config.console_enabled {
            console.write(text)
        } else {
            0
        }
    }

    /// Clears the console, where it is enabled.
    pub fn clear_console(&mut self, console: &mut Console)
        requires
            old(console).wf(),
        ensures
            *final(self) == *old(self),
            final(console).wf(),
            if old(self).config.console_enabled {
                &&& final(console).config == old(console).config
                &&& final(console).state@ == (Screen {
                    cursor: Cursor { col: 0, row: 0 },
                    ..old(console).state@.cleared(old(console).config.default_bg)
                })
                &&& final(console).metrics == (ConsoleMetrics {
                    clears: old(console).metrics.clears.wrapping_add(1),
                    ..old(console).metrics
                })
            } else {
                *final(console) == *old(console)
            },
    {
        if self.config.console_enabled {
            console.clear();
        }
    }

    /// Forgets that the devices were set up, and sets all counters to 0.
    pub fn reset(&mut self)
        ensures
            *final(self) == (IoManager {
                config: old(self).config,
                initialised: false,
                metrics: IoMetrics {
                    serial_writes: 0,
                    framebuffer_presents: 0,
                    console_chars: 0,
                    console_lines: 0,
                    draw_calls: 0,
                },
            }),
    {
        self.initialised = false;
        self.metrics = IoMetrics::default();
    }
}

pub open spec fn bytes_of(r: Option<Vec<u8>>) -> Option<Seq<u8>> {
    match r {
        Some(v) => Some(v@),
        None => None,
    }
}

// ---------------------------------------------------------------------------
// The kernel-wide manager, which its owner passes in
// ---------------------------------------------------------------------------

/// Sets up framebuffer and console, where there is a screen.
pub fn init(fb: Option<HardwareFb>) -> (r: IoDevices)
    requires
        fb matches Some(hw) ==> hw.width * hw.height <= usize::MAX,
    ensures
        r.framebuffer is Some <==> fb is Some,
        r.console is Some <==> fb is Some,
        r.framebuffer matches Some(p) ==> set_up_for(p, fb->0),
        r.console matches Some(c) ==> console::at_start(c.console) && c.initialised,
{
    match fb {
        Some(hw) => IoDevices {
            framebuffer: Some(framebuffer::init(hw)),
            console: Some(console::ready_instance(None)),
        },
        None => IoDevices { framebuffer: None, console: None },
    }
}

/// The bytes to send over the serial port, where that is enabled.
pub fn serial_write(m: &mut IoManager, port: &SerialPort, s: &str) -> (r: Option<Vec<u8>>)
    ensures
        IoManager::serial_sent(*old(m), *final(m), s@, bytes_of(r)),
{
    m.serial_write(port, s)
}

/// Presents what is dirty, where the framebuffer is enabled.
pub fn fb_present(m: &mut IoManager, p: &mut FramebufferPresenter, vram: &mut [u8])
    requires
        old(p).wf(),
        old(p).hw matches Some(hw) ==> hw.wf(old(vram)@.len()),
    ensures
        *final(m) == old(m).presented_once(),
        final(p).wf(),
        final(vram)@.len() == old(vram)@.len(),
        if old(m).config.framebuffer_enabled {
            exists|r: FramebufferResult<()>| #[trigger]
                FramebufferPresenter::presented(
                    *old(p),
                    *final(p),
                    old(vram)@,
                    final(vram)@,
                    r,
                )
        } else {
            *final(p) == *old(p) && final(vram)@ == old(vram)@
        },
{
    m.present(p, vram);
}

/// Presents the whole screen, where the framebuffer is enabled.
pub fn fb_present_full(m: &mut IoManager, p: &mut FramebufferPresenter, vram: &mut [u8])
    requires
        old(p).wf(),
        old(p).hw matches Some(hw) ==> hw.wf(old(vram)@.len()),
    ensures
        *final(m) == old(m).presented_once(),
        final(p).wf(),
        final(vram)@.len() == old(vram)@.len(),
        if old(m).config.framebuffer_enabled {
            exists|mid: FramebufferPresenter, r: FramebufferResult<()>|
                mid.marks() == old(p).marks().all() && mid.back == old(p).back && mid.hw
                    == old(p).hw && mid.metrics == old(p).metrics
                    && #[trigger] FramebufferPresenter::presented(
                    mid,
                    *final(p),
                    old(vram)@,
                    final(vram)@,
                    r,
                )
        } else {
            *final(p) == *old(p) && final(vram)@ == old(vram)@
        },
{
    m.present_full(p, vram);
}

/// Prints a character, where the console is enabled.
pub fn console_putchar(m: &mut IoManager, console: &mut Console, c: char)
    requires
        old(console).wf(),
        old(m).config.console_enabled ==> old(console).takes(seq![c]),
    ensures
        *final(m) == old(m).printed(1),
        final(console).wf(),
        if old(m).config.console_enabled {
            Console::wrote(*old(console), *final(console), seq![c])
        } else {
            *final(console) == *old(console)
        },
{
    m.putchar(console, c);
}

/// Prints a string, where the console is enabled.
pub fn console_puts(m: &mut IoManager, console: &mut Console, s: &str)
    requires
        old(console).wf(),
        old(m).config.console_enabled ==> old(console).takes(s@),
    ensures
        *final(m) == old(m).printed(s@.len()),
        final(console).wf(),
        if old(m).config.console_enabled && s@.len() > 0 {
            Console::wrote(*old(console), *final(console), s@)
        } else {
            *final(console) == *old(console)
        },
{
    m.puts(console, s);
}

/// Prints a formatted text, where the console is enabled.
pub fn console_print(m: &IoManager, console: &mut Console, text: &str) -> (frames: u64)
    requires
        old(console).wf(),
        m.config.console_enabled ==> old(console).takes(text@),
        text@.len() < u64::MAX,
    ensures
        final(console).wf(),
        if m.config.console_enabled {
            Console::wrote(*old(console), *final(console), text@) && frames == old(console).frames(
                text@,
            )
        } else {
            *final(console) == *old(console) && frames == 0
        },
{
    m.print(console, text)
}

/// Clears the console, where it is enabled.
pub fn console_clear(m: &mut IoManager, console: &mut Console)
    requires
        old(console).wf(),
    ensures
        *final(m) == *old(m),
        final(console).wf(),
        if old(m).config.console_enabled {
            &&& final(console).config == old(console).config
            &&& final(console).state@ == (Screen {
                cursor: Cursor { col: 0, row: 0 },
                ..old(console).state@.cleared(old(console).config.default_bg)
            })
            &&& final(console).metrics == (ConsoleMetrics {
                clears: old(console).metrics.clears.wrapping_add(1),
                ..old(console).metrics
            })
        } else {
            *final(console) == *old(console)
        },
{
    m.clear_console(console);
}

/// What goes out is what the device was told and is enabled for, and it is counted as often
/// as it goes out; what is disabled is neither sent nor counted.
pub proof fn law_disabled_output_is_not_sent(
    m: &mut IoManager,
    port: &SerialPort,
    s: &str,
    r: Option<Vec<u8>>,
    sent: Vec<u8>,
    n: &mut IoManager,
    console: &mut Console,
)
    requires
        call_ensures(IoManager::serial_write, (m, port, s), r),
        call_ensures(SerialPort::write_str, (port, s), sent),
        call_ensures(IoManager::puts, (n, console, s), ()),
    ensures
        r is Some <==> old(m).config.serial_enabled,
        r matches Some(v) ==> v@ == sent@,
        old(m).metrics.serial_writes < u64::MAX ==> final(m).metrics.serial_writes == old(
            m).metrics.serial_writes + (if old(m).config.serial_enabled {
            1int
        } else {
            0
        }),
        final(m).metrics.console_chars == old(m).metrics.console_chars,
        final(m).metrics.framebuffer_presents == old(m).metrics.framebuffer_presents,
        !old(n).config.console_enabled ==> *final(console) == *old(console) && *final(n) == *old(n),
        old(n).config.console_enabled && old(n).metrics.console_chars + s@.len() <= u64::MAX
            ==> final(n).metrics.console_chars == old(n).metrics.console_chars + s@.len(),
        final(n).metrics.serial_writes == old(n).metrics.serial_writes,
{
}

/// A presentation is counted where the screen is enabled; where it is not, nothing is shown
/// and the picture stays as dirty as it was.
pub proof fn law_presentation_is_counted(
    m: &mut IoManager,
    p: &mut FramebufferPresenter,
    vram: &mut [u8],
)
    requires
        call_ensures(IoManager::present, (m, p, vram), ()) || call_ensures(
            IoManager::present_full,
            (m, p, vram),
            (),
        ),
        old(m).metrics.framebuffer_presents < u64::MAX,
    ensures
        final(m).metrics.framebuffer_presents == old(m).metrics.framebuffer_presents + (if old(
            m).config.framebuffer_enabled {
            1int
        } else {
            0
        }),
        !old(m).config.framebuffer_enabled ==> final(vram)@ == old(vram)@ && *final(p) == *old(p),
        final(m).metrics.serial_writes == old(m).metrics.serial_writes,
{
}

/// The numbers that are reported of input and output are those that were counted.
pub proof fn law_io_report_is_what_was_counted(m: &IoManager, r: IoMetricsSnapshot)
    requires
        call_ensures(IoManager::metrics_snapshot, (m,), r),
    ensures
        r.serial_writes == m.metrics.serial_writes,
        r.framebuffer_presents == m.metrics.framebuffer_presents,
        r.console_chars == m.metrics.console_chars,
        r.console_lines == m.metrics.console_lines,
        r.draw_calls == m.metrics.draw_calls,
{
}

/// Devices are made once, for a screen that is there, as far as they are enabled; the
/// picture has the size of the screen.
pub proof fn law_devices_are_made_once(
    m: &mut IoManager,
    fb: Option<HardwareFb>,
    r: IoResult<IoDevices>,
)
    requires
        call_ensures(IoManager::init, (m, fb), r),
    ensures
        r is Ok,
        final(m).initialised,
        old(m).initialised || fb is None ==> r->Ok_0.framebuffer is None && r->Ok_0.console is None,
        !old(m).initialised && fb is Some && old(m).config.framebuffer_enabled
            ==> r->Ok_0.framebuffer is Some && r->Ok_0.framebuffer->0.back.width == fb->0.width
            && r->Ok_0.framebuffer->0.back.height == fb->0.height,
        r->Ok_0.console is Some <==> !old(m).initialised && fb is Some && old(
            m).config.console_enabled,
{
}

} // verus!
