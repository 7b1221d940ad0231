//! Booting the kernel: its settings, how long each phase takes, which drivers are
//! tried, which daemons run, and what is shown when it panics.
use crate::gui::canvas;
use crate::gui::canvas::{blank, put, DrawOp, Ink};
use crate::text;
use vstd::prelude::*;

verus! {

/// How much is logged.
#[derive(Debug, Clone, Copy, PartialEq, Eq, Structural)]
pub enum Level {
    Trace,
    Debug,
    Info,
    Warn,
    Error,
}

/// Settings of the kernel.
#[derive(Debug)]
pub struct KernelConfig {
    pub verbose: bool,
    pub gdb_on_panic: bool,
    pub persist_crash_dump: bool,
    pub enable_memory_protection: bool,
    pub enable_kaslr: bool,
    pub enable_seccomp: bool,
    pub log_level: Level,
    pub chain_rpc: String,
    pub data_dir: String,
}

impl Default for KernelConfig {
    fn default() -> (r: Self)
        ensures
            !r.verbose,
            r.gdb_on_panic,
            r.persist_crash_dump,
            r.enable_memory_protection,
            r.enable_kaslr,
            r.enable_seccomp,
            r.log_level is Info,
            r.chain_rpc@ == "http://chain.iona.network:9001"@,
            r.data_dir@ == "/var/iona-node"@,
    {
        KernelConfig {
            verbose: false,
            gdb_on_panic: true,
            persist_crash_dump: true,
            enable_memory_protection: true,
            enable_kaslr: true,
            enable_seccomp: true,
            log_level: Level::Info,
            chain_rpc: "http://chain.iona.network:9001".to_owned(),
            data_dir: "/var/iona-node".to_owned(),
        }
    }
}

impl KernelConfig {
    /// The filter for the log.
    pub fn log_filter(&self) -> (r: &'static str)
        ensures
            r@ == (match self.log_level {
                Level::Trace => "iona=debug,info"@,
                Level::Debug => "iona=debug,info"@,
                Level::Info => "iona=info"@,
                Level::Warn => "iona=warn"@,
                Level::Error => "iona=error"@,
            }),
    {
        match self.log_level {
            Level::Trace => "iona=debug,info",
            Level::Debug => "iona=debug,info",
            Level::Info => "iona=info",
            Level::Warn => "iona=warn",
            Level::Error => "iona=error",
        }
    }
}

/// Errors of booting.
#[derive(Debug)]
pub enum KernelError {
    BootPhaseFailed { phase: &'static str },
    Config(String),
    Internal(String),
}

pub type KernelResult<T> = Result<T, KernelError>;

/// When the kernel was booted, and how long that took, in milliseconds.
#[derive(Debug, Clone, Copy, PartialEq, Eq)]
pub struct KernelMetrics {
    pub boot_start_ms: u64,
    pub boot_end_ms: u64,
    pub phase_core_ms: u64,
    pub phase_memory_ms: u64,
    pub phase_drivers_ms: u64,
    pub phase_network_ms: u64,
    pub phase_services_ms: u64,
    pub phase_security_ms: u64,
    pub phase_userspace_ms: u64,
    pub total_boot_ms: u64,
}

impl Default for KernelMetrics {
    fn default() -> (r: Self)
        ensures
            r == (KernelMetrics {
                boot_start_ms: 0,
                boot_end_ms: 0,
                phase_core_ms: 0,
                phase_memory_ms: 0,
                phase_drivers_ms: 0,
                phase_network_ms: 0,
                phase_services_ms: 0,
                phase_security_ms: 0,
                phase_userspace_ms: 0,
                total_boot_ms: 0,
            }),
    {
        KernelMetrics {
            boot_start_ms: 0,
            boot_end_ms: 0,
            phase_core_ms: 0,
            phase_memory_ms: 0,
            phase_drivers_ms: 0,
            phase_network_ms: 0,
            phase_services_ms: 0,
            phase_security_ms: 0,
            phase_userspace_ms: 0,
            total_boot_ms: 0,
        }
    }
}

impl KernelMetrics {
    /// With the duration of a phase; a phase that is not known changes nothing.
    pub open spec fn with_phase(self, phase: Seq<char>, ms: u64) -> KernelMetrics {
        if phase == "core"@ {
            KernelMetrics { phase_core_ms: ms, ..self }
        } else if phase == "memory"@ {
            KernelMetrics { phase_memory_ms: ms, ..self }
        } else if phase == "drivers"@ {
            KernelMetrics { phase_drivers_ms: ms, ..self }
        } else if phase == "network"@ {
            KernelMetrics { phase_network_ms: ms, ..self }
        } else if phase == "services"@ {
            KernelMetrics { phase_services_ms: ms, ..self }
        } else if phase == "security"@ {
            KernelMetrics { phase_security_ms: ms, ..self }
        } else if phase == "userspace"@ {
            KernelMetrics { phase_userspace_ms: ms, ..self }
        } else {
            self
        }
    }

    /// Records how long a phase has taken.
    pub fn record_phase(&mut self, phase: &str, duration_ms: u64)
        ensures
            *final(self) == old(self).with_phase(phase@, duration_ms),
    {
        if text::same(phase, "core") {
            self.phase_core_ms = duration_ms;
        } else if text::same(phase, "memory") {
            self.phase_memory_ms = duration_ms;
        } else if text::same(phase, "drivers") {
            self.phase_drivers_ms = duration_ms;
        } else if text::same(phase, "network") {
            self.phase_network_ms = duration_ms;
        } else if text::same(phase, "services") {
            self.phase_services_ms = duration_ms;
        } else if text::same(phase, "security") {
            self.phase_security_ms = duration_ms;
        } else if text::same(phase, "userspace") {
            self.phase_userspace_ms = duration_ms;
        }
    }

    /// The kernel is booted; a clock that went back counts as no time.
    pub fn set_boot_end(&mut self, ms: u64)
        ensures
            *final(self) == (KernelMetrics {
                boot_end_ms: ms,
                total_boot_ms: if ms < old(self).boot_start_ms {
                    0
                } else {
                    (ms - old(self).boot_start_ms) as u64
                },
                ..*old(self)
            }),
    {
        self.boot_end_ms = ms;
        self.total_boot_ms = ms.saturating_sub(self.boot_start_ms);
    }

    pub fn set_boot_start(&mut self, ms: u64)
        ensures
            *final(self) == (KernelMetrics {
                boot_start_ms: ms,
                ..*old(self)
            }),
    {
        self.boot_start_ms = ms;
    }

    /// A copy of the counters.
    pub fn snapshot(&self) -> (r: KernelMetricsSnapshot)
        ensures
            r == (KernelMetricsSnapshot {
                boot_start_ms: self.boot_start_ms,
                boot_end_ms: self.boot_end_ms,
                phase_core_ms: self.phase_core_ms,
                phase_memory_ms: self.phase_memory_ms,
                phase_drivers_ms: self.phase_drivers_ms,
                phase_network_ms: self.phase_network_ms,
                phase_services_ms: self.phase_services_ms,
                phase_security_ms: self.phase_security_ms,
                phase_userspace_ms: self.phase_userspace_ms,
                total_boot_ms: self.total_boot_ms,
            }),
    {
        KernelMetricsSnapshot {
            boot_start_ms: self.boot_start_ms,
            boot_end_ms: self.boot_end_ms,
            phase_core_ms: self.phase_core_ms,
            phase_memory_ms: self.phase_memory_ms,
            phase_drivers_ms: self.phase_drivers_ms,
            phase_network_ms: self.phase_network_ms,
            phase_services_ms: self.phase_services_ms,
            phase_security_ms: self.phase_security_ms,
            phase_userspace_ms: self.phase_userspace_ms,
            total_boot_ms: self.total_boot_ms,
        }
    }
}

/// A copy of [`KernelMetrics`] at one moment.
#[derive(Debug, Clone, Copy, PartialEq, Eq)]
pub struct KernelMetricsSnapshot {
    pub boot_start_ms: u64,
    pub boot_end_ms: u64,
    pub phase_core_ms: u64,
    pub phase_memory_ms: u64,
    pub phase_drivers_ms: u64,
    pub phase_network_ms: u64,
    pub phase_services_ms: u64,
    pub phase_security_ms: u64,
    pub phase_userspace_ms: u64,
    pub total_boot_ms: u64,
}

// ---------------------------------------------------------------------------
// Drivers
// ---------------------------------------------------------------------------

/// A device on the bus.
#[derive(Debug, Clone, Copy, PartialEq, Eq)]
pub struct PciDevice {
    pub vendor_id: u16,
    pub class: u8,
    pub subclass: u8,
    pub prog_if: u8,
    pub virtio_blk: bool,
    pub virtio_net: bool,
}

/// Drivers, in the order in which they are tried.
#[derive(Debug, Clone, Copy, PartialEq, Eq, Structural)]
pub enum Driver {
    VirtioBlk,
    VirtioNet,
    Nvme,
    Usb,
    Ahci,
    E1000,
    Audio,
}

/// What has been found on the bus.
#[derive(Debug, Clone, Copy, PartialEq, Eq)]
pub struct Found {
    pub has_disk: bool,
    pub has_net: bool,
}

/// Whether a driver is tried on a device: disks and networks only until one works.
pub open spec fn wanted(dev: PciDevice, driver: Driver, found: Found) -> bool {
    match driver {
        Driver::VirtioBlk => dev.virtio_blk && !found.has_disk,
        Driver::VirtioNet => dev.virtio_net && !found.has_net,
        Driver::Nvme => dev.class == 0x01 && dev.subclass == 0x08 && !found.has_disk,
        Driver::Usb => dev.class == 0x0C && dev.subclass == 0x03 && dev.prog_if == 0x30,
        Driver::Ahci => dev.class == 0x01 && dev.subclass == 0x06,
        Driver::E1000 => dev.vendor_id == 0x8086,
        Driver::Audio => dev.class == 0x04 && dev.subclass == 0x03,
    }
}

impl Driver {
    /// The drivers in the order in which they are tried.
    fn nth(k: usize) -> (r: Driver)
        ensures
            r == driver_at(k as int),
    {
        if k == 0 {
            Driver::VirtioBlk
        } else if k == 1 {
            Driver::VirtioNet
        } else if k == 2 {
            Driver::Nvme
        } else if k == 3 {
            Driver::Usb
        } else if k == 4 {
            Driver::Ahci
        } else if k == 5 {
            Driver::E1000
        } else {
            Driver::Audio
        }
    }

    /// Is the driver tried on the device?
    pub fn fits(self, dev: &PciDevice, found: &Found) -> (r: bool)
        ensures
            r == wanted(*dev, self, *found),
    {
        match self {
            Driver::VirtioBlk => dev.virtio_blk && !found.has_disk,
            Driver::VirtioNet => dev.virtio_net && !found.has_net,
            Driver::Nvme => dev.class == 0x01 && dev.subclass == 0x08 && !found.has_disk,
            Driver::Usb => dev.class == 0x0C && dev.subclass == 0x03 && dev.prog_if == 0x30,
            Driver::Ahci => dev.class == 0x01 && dev.subclass == 0x06,
            Driver::E1000 => dev.vendor_id == 0x8086,
            Driver::Audio => dev.class == 0x04 && dev.subclass == 0x03,
        }
    }
}

impl Found {
    pub fn new() -> (r: Self)
        ensures
            r == (Found { has_disk: false, has_net: false }),
    {
        Found { has_disk: false, has_net: false }
    }

    /// With the news of a driver that was tried.
    pub open spec fn with(self, driver: Driver, worked: bool) -> Found {
        match driver {
            Driver::VirtioBlk => Found { has_disk: worked, ..self },
            Driver::Nvme => Found { has_disk: worked, ..self },
            Driver::VirtioNet => Found { has_net: worked, ..self },
            _ => self,
        }
    }

    /// A driver was tried on a device that it fits.
    pub fn tried(&mut self, driver: Driver, worked: bool)
        ensures
            *final(self) == old(self).with(driver, worked),
    {
        match driver {
            Driver::VirtioBlk => {
                self.has_disk = worked;
            },
            Driver::Nvme => {
                self.has_disk = worked;
            },
            Driver::VirtioNet => {
                self.has_net = worked;
            },
            _ => {},
        }
    }
}

/// Where the search for drivers stands: device by device, and on each device driver by
/// driver.
#[derive(Debug, Clone, Copy, PartialEq, Eq)]
pub struct BusScan {
    pub place: usize,
    pub found: Found,
}

pub open spec fn driver_at(k: int) -> Driver {
    if k == 0 {
        Driver::VirtioBlk
    } else if k == 1 {
        Driver::VirtioNet
    } else if k == 2 {
        Driver::Nvme
    } else if k == 3 {
        Driver::Usb
    } else if k == 4 {
        Driver::Ahci
    } else if k == 5 {
        Driver::E1000
    } else {
        Driver::Audio
    }
}

/// Is there something to try at a place of the search?
pub open spec fn due_at(devs: Seq<PciDevice>, place: int, found: Found) -> bool {
    wanted(devs[place / 7], driver_at(place % 7), found)
}

/// The first place from `place` on at which there is something to try.
pub open spec fn next_due(devs: Seq<PciDevice>, place: int, found: Found) -> Option<int>
    decreases devs.len() * 7 - place,
{
    if place >= devs.len() * 7 {
        None
    } else if due_at(devs, place, found) {
        Some(place)
    } else {
        next_due(devs, place + 1, found)
    }
}

impl BusScan {
    pub fn new() -> (r: Self)
        ensures
            r == (BusScan { place: 0, found: Found { has_disk: false, has_net: false } }),
    {
        BusScan { place: 0, found: Found::new() }
    }

    /// The next device to try, and the driver to try on it; nothing when all is tried.
    pub fn next_probe(&mut self, devs: &Vec<PciDevice>) -> (r: Option<(usize, Driver)>)
        requires
            devs.len() * 7 <= usize::MAX,
        ensures
            final(self).found == old(self).found,
            match next_due(devs@, old(self).place as int, old(self).found) {
                Some(k) => {
                    &&& r == Some(((k / 7) as usize, driver_at(k % 7)))
                    &&& final(self).place == k + 1
                },
                None => r is None && final(self).place >= devs.len() * 7,
            },
    {
        let end: usize = devs.len() * 7;
        while self.place < end
            invariant
                end == devs.len() * 7,
                self.found == old(self).found,
                next_due(devs@, self.place as int, self.found) == next_due(
                    devs@,
                    old(self).place as int,
                    old(self).found,
                ),
            decreases end - self.place,
        {
            let i: usize = self.place / 7;
            let driver = Driver::nth(self.place % 7);
            self.place += 1;
            if driver.fits(&devs[i], &self.found) {
                return Some((i, driver));
            }
        }
        None
    }

    /// A driver that was due has been tried.
    pub fn tried(&mut self, driver: Driver, worked: bool)
        ensures
            *final(self) == (BusScan { found: old(self).found.with(driver, worked), ..*old(self) }),
    {
        self.found.tried(driver, worked);
    }
}

/// The search passes over nothing that is due.
pub proof fn law_search_skips_nothing(devs: Seq<PciDevice>, place: int, found: Found)
    requires
        0 <= place,
    ensures
        match next_due(devs, place, found) {
            Some(k) => {
                &&& place <= k < devs.len() * 7
                &&& due_at(devs, k, found)
                &&& forall|j: int| place <= j < k ==> !#[trigger] due_at(devs, j, found)
            },
            None => forall|j: int|
                place <= j < devs.len() * 7 ==> !#[trigger] due_at(devs, j, found),
        },
    decreases devs.len() * 7 - place,
{
    if place < devs.len() * 7 && !due_at(devs, place, found) {
        law_search_skips_nothing(devs, place + 1, found);
    }
}

/// Once a disk or a network works, no driver takes it away: none that could is tried
/// again.
pub proof fn law_found_stays_found(dev: PciDevice, driver: Driver, found: Found, worked: bool)
    requires
        wanted(dev, driver, found),
    ensures
        found.has_disk ==> found.with(driver, worked).has_disk,
        found.has_net ==> found.with(driver, worked).has_net,
{
}

// ---------------------------------------------------------------------------
// Network, daemons, canary
// ---------------------------------------------------------------------------

/// An address of the network, as it is written.
pub open spec fn dotted(ip: [u8; 4]) -> Seq<char> {
    text::decimal(ip@[0] as nat) + "."@ + text::decimal(ip@[1] as nat) + "."@ + text::decimal(
        ip@[2] as nat,
    ) + "."@ + text::decimal(ip@[3] as nat)
}

/// The address that the chain's name is taken to have: the one that was found, or else
/// that of the gateway.
pub fn chain_address(resolved: Option<[u8; 4]>, gateway: [u8; 4]) -> (r: [u8; 4])
    ensures
        r == (match resolved {
            Some(ip) => ip,
            None => gateway,
        }),
{
    match resolved {
        Some(ip) => ip,
        None => gateway,
    }
}

/// Where the chain is spoken to: at the address of its name, or else as configured.
pub fn chain_rpc(resolved: Option<[u8; 4]>, config: &KernelConfig) -> (r: String)
    ensures
        r@ == (match resolved {
            Some(ip) => "http://"@ + dotted(ip) + ":9001"@,
            None => config.chain_rpc@,
        }),
{
    match resolved {
        Some(ip) => {
            let mut out = "http://".to_owned();
            text::push_decimal(&mut out, ip[0] as u64);
            out.append(".");
            text::push_decimal(&mut out, ip[1] as u64);
            out.append(".");
            text::push_decimal(&mut out, ip[2] as u64);
            out.append(".");
            text::push_decimal(&mut out, ip[3] as u64);
            out.append(":9001");
            assert(out@ =~= "http://"@ + dotted(ip) + ":9001"@);
            out
        },
        None => config.chain_rpc.clone(),
    }
}

/// A task of the kernel.
#[derive(Debug, Clone, Copy, PartialEq, Eq)]
pub enum Daemon {
    NetPoll,
    WaitWakeup,
    Monitor,
    SwapDaemon,
    BlockSync,
}

impl Daemon {
    pub fn name(&self) -> (r: &'static str)
        ensures
            r@ == (match *self {
                Daemon::NetPoll => "net-poll"@,
                Daemon::WaitWakeup => "wait-wakeup"@,
                Daemon::Monitor => "monitor"@,
                Daemon::SwapDaemon => "swap-daemon"@,
                Daemon::BlockSync => "block-sync"@,
            }),
    {
        match self {
            Daemon::NetPoll => "net-poll",
            Daemon::WaitWakeup => "wait-wakeup",
            Daemon::Monitor => "monitor",
            Daemon::SwapDaemon => "swap-daemon",
            Daemon::BlockSync => "block-sync",
        }
    }

    pub fn priority(&self) -> (r: u8)
        ensures
            r == (match *self {
                Daemon::NetPoll => 3,
                Daemon::WaitWakeup => 4,
                Daemon::Monitor => 1,
                Daemon::SwapDaemon => 1,
                Daemon::BlockSync => 2u8,
            }),
    {
        match self {
            Daemon::NetPoll => 3,
            Daemon::WaitWakeup => 4,
            Daemon::Monitor => 1,
            Daemon::SwapDaemon => 1,
            Daemon::BlockSync => 2,
        }
    }
}

impl Daemon {
    /// How long a daemon waits before its first turn, and then between two turns, in
    /// milliseconds.
    pub fn waits(&self) -> (r: (u64, u64))
        ensures
            r == (match *self {
                Daemon::NetPoll => (0u64, 5u64),
                Daemon::WaitWakeup => (0, 0),
                Daemon::Monitor => (10_000, 10_000),
                Daemon::SwapDaemon => (30_000, 30_000),
                Daemon::BlockSync => (500, 60_000),
            }),
    {
        match self {
            Daemon::NetPoll => (0, 5),
            Daemon::WaitWakeup => (0, 0),
            Daemon::Monitor => (10_000, 10_000),
            Daemon::SwapDaemon => (30_000, 30_000),
            Daemon::BlockSync => (500, 60_000),
        }
    }
}

/// The daemons that are started: blocks are fetched only with a network.
pub fn daemons(net_ready: bool) -> (r: Vec<Daemon>)
    ensures
        r@ == (if net_ready {
            seq![
                Daemon::NetPoll,
                Daemon::WaitWakeup,
                Daemon::Monitor,
                Daemon::SwapDaemon,
                Daemon::BlockSync,
            ]
        } else {
            seq![Daemon::NetPoll, Daemon::WaitWakeup, Daemon::Monitor, Daemon::SwapDaemon]
        }),
{
    let mut v: Vec<Daemon> = Vec::new();
    v.push(Daemon::NetPoll);
    v.push(Daemon::WaitWakeup);
    v.push(Daemon::Monitor);
    v.push(Daemon::SwapDaemon);
    if net_ready {
        v.push(Daemon::BlockSync);
    }
    v
}

/// Are blocks to be fetched at this turn of the daemon? At the first in any case,
/// and later while there is a network.
pub fn sync_due(first: bool, net_ready: bool) -> (r: bool)
    ensures
        r == (first || net_ready),
{
    first || net_ready
}

/// A measure that makes the kernel harder to attack.
#[derive(Debug, Clone, Copy, PartialEq, Eq)]
pub enum Hardening {
    StackCanary,
    Aslr,
    SecureBoot,
    Keystore,
    Seccomp,
    IoProtection,
    SmepSmap,
    Kaslr,
}

pub open spec fn one_if(on: bool, h: Hardening) -> Seq<Hardening> {
    if on {
        seq![h]
    } else {
        seq![]
    }
}

impl KernelConfig {
    /// The measures that are taken, in their order; three of them can be switched off.
    pub fn hardening(&self) -> (r: Vec<Hardening>)
        ensures
            r@ == seq![
                Hardening::StackCanary,
                Hardening::Aslr,
                Hardening::SecureBoot,
                Hardening::Keystore,
            ] + one_if(self.enable_seccomp, Hardening::Seccomp) + seq![Hardening::IoProtection]
                + one_if(self.enable_memory_protection, Hardening::SmepSmap) + one_if(
                self.enable_kaslr,
                Hardening::Kaslr,
            ),
    {
        let mut v: Vec<Hardening> = Vec::new();
        v.push(Hardening::StackCanary);
        v.push(Hardening::Aslr);
        v.push(Hardening::SecureBoot);
        v.push(Hardening::Keystore);
        if self.enable_seccomp {
            v.push(Hardening::Seccomp);
        }
        v.push(Hardening::IoProtection);
        if self.enable_memory_protection {
            v.push(Hardening::SmepSmap);
        }
        if self.enable_kaslr {
            v.push(Hardening::Kaslr);
        }
        v
    }
}

/// Which node runs: the one in user space if its program was found and loaded, or else
/// the one in the kernel.
#[derive(Debug, Clone, Copy, PartialEq, Eq)]
pub enum NodeTask {
    UserSpace,
    KernelStub,
}

impl NodeTask {
    pub fn choose_task(found: bool, loaded: bool) -> (r: Self)
        ensures
            r == (if found && loaded {
                NodeTask::UserSpace
            } else {
                NodeTask::KernelStub
            }),
    {
        if found && loaded {
            NodeTask::UserSpace
        } else {
            NodeTask::KernelStub
        }
    }

    pub fn name(&self) -> (r: &'static str)
        ensures
            r@ == (match *self {
                NodeTask::UserSpace => "iona-node-r3"@,
                NodeTask::KernelStub => "iona-node"@,
            }),
    {
        match self {
            NodeTask::UserSpace => "iona-node-r3",
            NodeTask::KernelStub => "iona-node",
        }
    }
}

/// The guard of the stack, from the time since the start.
pub fn init_stack_canary(uptime_ms: u64) -> (r: u64)
    ensures
        r == uptime_ms.wrapping_mul(0x517CC1B727220A95).wrapping_add(0xDEAD_BEEF_CAFE_BABE)
            ^ 0xA5A5_A5A5_A5A5_A5A5,
{
    uptime_ms.wrapping_mul(0x517CC1B727220A95).wrapping_add(0xDEAD_BEEF_CAFE_BABE)
        ^ 0xA5A5_A5A5_A5A5_A5A5
}

/// A line of the monitor: uptime, tasks, memory in use and the state of the network.
pub fn monitor_line(
    n: u64,
    uptime_ms: u64,
    ready: u64,
    blocked: u64,
    used_frames: u64,
    net_up: bool,
) -> (r: String)
    requires
        used_frames * 4096 <= u64::MAX,
    ensures
        r@ == "Monitor #"@ + text::decimal(n as nat) + ": uptime="@ + text::decimal(
            (uptime_ms / 1000) as nat,
        ) + "."@ + text::padded(text::decimal((uptime_ms % 1000) as nat), '0', 3) + "s, tasks="@
            + text::decimal(ready as nat) + "/"@ + text::decimal(blocked as nat)
            + " ready/blocked, memory="@ + text::fixed(used_frames * 4096, 1048576, 2)
            + " MiB used, net="@ + (if net_up {
            "up"@
        } else {
            "down"@
        }),
{
    let mut out = "Monitor #".to_owned();
    text::push_decimal(&mut out, n);
    out.append(": uptime=");
    text::push_decimal(&mut out, uptime_ms / 1000);
    out.append(".");
    text::push_zero_padded(&mut out, uptime_ms % 1000, 3);
    out.append("s, tasks=");
    text::push_decimal(&mut out, ready);
    out.append("/");
    text::push_decimal(&mut out, blocked);
    out.append(" ready/blocked, memory=");
    text::push_fixed(&mut out, used_frames as u128 * 4096, 1048576, 2);
    out.append(" MiB used, net=");
    if net_up {
        out.append("up");
    } else {
        out.append("down");
    }
    out
}

// ---------------------------------------------------------------------------
// The node in the kernel
// ---------------------------------------------------------------------------

/// The node that runs in the kernel when there is none in user space.
#[derive(Debug, Clone, Copy, PartialEq, Eq)]
pub struct StubNode {
    pub height: u64,
    pub last_reconcile: u64,
    pub last_attest: u64,
    pub last_gossip: u64,
    pub last_heartbeat: u64,
}

/// What the node does at one moment.
#[derive(Debug, Clone, Copy, PartialEq, Eq)]
pub struct StubDeeds {
    pub reconcile: bool,
    pub attest: bool,
    pub gossip: bool,
    pub heartbeat: bool,
}

impl StubNode {
    pub fn new() -> (r: Self)
        ensures
            r == (StubNode {
                height: 0,
                last_reconcile: 0,
                last_attest: 0,
                last_gossip: 0,
                last_heartbeat: 0,
            }),
    {
        StubNode {
            height: 0,
            last_reconcile: 0,
            last_attest: 0,
            last_gossip: 0,
            last_heartbeat: 0,
        }
    }

    /// No deed lies in the future.
    pub open spec fn past(self, now: u64) -> bool {
        &&& self.last_reconcile <= now
        &&& self.last_attest <= now
        &&& self.last_gossip <= now
        &&& self.last_heartbeat <= now
    }

    /// What is due: each deed after its own time, gossip only with a network.
    pub open spec fn due(self, now: u64, net_ready: bool) -> StubDeeds {
        StubDeeds {
            reconcile: now - self.last_reconcile >= 30_000,
            attest: now - self.last_attest >= 60_000,
            gossip: now - self.last_gossip >= 1_000 && net_ready,
            heartbeat: now - self.last_heartbeat >= 10_000,
        }
    }

    /// The node after it has done what is due.
    pub open spec fn after(self, now: u64, net_ready: bool) -> StubNode {
        let d = self.due(now, net_ready);
        StubNode {
            height: if d.reconcile {
                (self.height + 1) as u64
            } else {
                self.height
            },
            last_reconcile: if d.reconcile {
                now
            } else {
                self.last_reconcile
            },
            last_attest: if d.attest {
                now
            } else {
                self.last_attest
            },
            last_gossip: if d.gossip {
                now
            } else {
                self.last_gossip
            },
            last_heartbeat: if d.heartbeat {
                now
            } else {
                self.last_heartbeat
            },
        }
    }

    /// It is `now`: says what the node does.
    pub fn tick(&mut self, now: u64, net_ready: bool) -> (r: StubDeeds)
        requires
            old(self).past(now),
            old(self).height < u64::MAX,
        ensures
            r == old(self).due(now, net_ready),
            *final(self) == old(self).after(now, net_ready),
            final(self).past(now),
    {
        let mut d = StubDeeds { reconcile: false, attest: false, gossip: false, heartbeat: false };
        if now - self.last_reconcile >= 30_000 {
            self.last_reconcile = now;
            self.height += 1;
            d.reconcile = true;
        }
        if now - self.last_attest >= 60_000 {
            self.last_attest = now;
            d.attest = true;
        }
        if now - self.last_gossip >= 1_000 && net_ready {
            self.last_gossip = now;
            d.gossip = true;
        }
        if now - self.last_heartbeat >= 10_000 {
            self.last_heartbeat = now;
            d.heartbeat = true;
        }
        d
    }

    /// The line of a heartbeat.
    pub fn heartbeat_line(&self, used_frames: u64) -> (r: String)
        requires
            used_frames * 4096 <= u64::MAX,
        ensures
            r@ == "Stub heartbeat: height="@ + text::decimal(self.height as nat) + ", memory="@
                + text::fixed(used_frames * 4096, 1048576, 1) + " MiB"@,
    {
        let mut out = "Stub heartbeat: height=".to_owned();
        text::push_decimal(&mut out, self.height);
        out.append(", memory=");
        text::push_fixed(&mut out, used_frames as u128 * 4096, 1048576, 1);
        out.append(" MiB");
        out
    }
}

/// A deed is not done again before its time has passed.
pub proof fn law_deeds_keep_their_distance(
    s: StubNode,
    now: u64,
    later: u64,
    net_ready: bool,
    net_later: bool,
)
    requires
        s.past(now),
        now <= later,
    ensures
        ({
            let first = s.due(now, net_ready);
            let second = s.after(now, net_ready).due(later, net_later);
            &&& first.reconcile && second.reconcile ==> later - now >= 30_000
            &&& first.attest && second.attest ==> later - now >= 60_000
            &&& first.gossip && second.gossip ==> later - now >= 1_000
            &&& first.heartbeat && second.heartbeat ==> later - now >= 10_000
        }),
{
}

// ---------------------------------------------------------------------------
// What is left of a panic
// ---------------------------------------------------------------------------

/// The registers at a panic.
#[derive(Debug, Clone, Copy)]
pub struct Registers {
    pub rip: u64,
    pub rsp: u64,
    pub rbp: u64,
}

/// A line of the source, as file and number; unknown where there is none.
pub open spec fn location_text(location: Option<(&str, u32)>) -> Seq<char> {
    match location {
        Some((file, line)) => file@ + ":"@ + text::decimal(line as nat),
        None => "unknown"@,
    }
}

/// What is written down of a panic: what it says, where it was, the registers and the
/// calls that led there.
pub fn crash_dump(info: &str, location: Option<(&str, u32)>, at: Registers, calls: &str) -> (r:
    String)
    ensures
        r@ == "Kernel Panic at "@ + info@ + "\n"@ + location_text(location) + "\nRIP=0x"@
            + text::hexadecimal(at.rip as nat) + ", RSP=0x"@ + text::hexadecimal(at.rsp as nat)
            + ", RBP=0x"@ + text::hexadecimal(at.rbp as nat) + "\nBacktrace:\n"@ + calls@,
{
    let mut out = "Kernel Panic at ".to_owned();
    out.append(info);
    out.append("\n");
    let ghost head = out@;
    match location {
        Some((file, line)) => {
            out.append(file);
            out.append(":");
            text::push_decimal(&mut out, line as u64);
        },
        None => {
            out.append("unknown");
        },
    }
    assert(out@ =~= head + location_text(location));
    out.append("\nRIP=0x");
    text::push_hexadecimal(&mut out, at.rip);
    out.append(", RSP=0x");
    text::push_hexadecimal(&mut out, at.rsp);
    out.append(", RBP=0x");
    text::push_hexadecimal(&mut out, at.rbp);
    out.append("\nBacktrace:\n");
    out.append(calls);
    out
}

// ---------------------------------------------------------------------------
// The screen of a panic
// ---------------------------------------------------------------------------

pub const PANIC_BACK: u32 = 0x080418;

pub const PANIC_BLUE: u32 = 0x3D8EF0;

/// What is left of a message: its first 72 bytes.
pub open spec fn shown_message(msg: Seq<char>) -> Seq<char> {
    if vstd::utf8::encode_utf8(msg).len() > 72 {
        msg.take(text::place(msg, 72))
    } else {
        msg
    }
}

pub open spec fn line(s: Seq<char>, x: int, y: int, fg: u32) -> Ink {
    Ink::Text { text: s, x, y, fg, bg: PANIC_BACK }
}

/// Half the width of a text.
pub open spec fn half_width(s: Seq<char>) -> int {
    vstd::utf8::encode_utf8(s).len() as int * 4
}

/// What the screen of a panic looks like.
pub open spec fn panic_look(msg: Seq<char>, loc: Seq<char>, w: int, h: int) -> Seq<Ink> {
    let shown = shown_message(msg);
    seq![
        Ink::Fill { x: 0, y: 0, w, h, color: PANIC_BACK },
        Ink::Outline { x: 16, y: 16, w: w - 32, h: h - 32, color: PANIC_BLUE },
        line("IONA OS"@, w / 2 - 28, h / 4, PANIC_BLUE),
        line("Kernel Panic"@, w / 2 - 48, h / 4 + 20, 0xFF4757),
        line("System halted."@, w / 2 - 56, h / 4 + 44, 0xE0E8F5),
        line(shown, w / 2 - half_width(shown), h / 2, 0xFFFFFF),
        line(loc, w / 2 - half_width(loc), h / 2 + 20, 0x8899BB),
        line("Check serial output for full backtrace."@, 32, h - 48, 0x445566),
        line("IONA OS v0.6.0 | x86_64 bare-metal Rust"@, 32, h - 28, 0x334455),
    ]
}

fn put_line(ops: &mut Vec<DrawOp>, s: &str, x: usize, y: usize, fg: u32)
    ensures
        canvas::inks(final(ops)@) == canvas::inks(old(ops)@).push(
            line(s@, x as int, y as int, fg),
        ),
{
    put(ops, DrawOp::Text { text: s.to_owned(), x, y, fg, bg: PANIC_BACK });
}

/// The part of a message that is shown.
fn cut_message(msg: &str) -> (r: String)
    requires
        vstd::utf8::encode_utf8(msg@).len() > 72 ==> text::is_boundary(msg@, 72),
    ensures
        r@ == shown_message(msg@),
{
    if text::byte_len(msg) > 72 {
        let n: usize = text::char_index(msg, 72);
        let s = text::part(msg, 0, n);
        assert(s@ =~= msg@.take(n as int));
        s
    } else {
        msg.to_owned()
    }
}

/// The screen of a panic, on a display of that size; nothing without a display.
pub fn bsod_screen(msg: &str, loc: &str, width: usize, height: usize) -> (r: Vec<DrawOp>)
    requires
        width > 0 && height > 0 ==> width >= 112 && height >= 48 && height <= usize::MAX - 44
            && width / 2 >= half_width(shown_message(msg@)) && width / 2 >= half_width(loc@) && (
        vstd::utf8::encode_utf8(msg@).len() > 72 ==> text::is_boundary(msg@, 72)),
    ensures
        canvas::inks(r@) == (if width == 0 || height == 0 {
            Seq::empty()
        } else {
            panic_look(msg@, loc@, width as int, height as int)
        }),
{
    let mut ops = blank();
    if width == 0 || height == 0 {
        return ops;
    }
    put(&mut ops, DrawOp::Fill { x: 0, y: 0, w: width, h: height, color: PANIC_BACK });
    put(
        &mut ops,
        DrawOp::Outline { x: 16, y: 16, w: width - 32, h: height - 32, color: PANIC_BLUE },
    );
    put_line(&mut ops, "IONA OS", width / 2 - 28, height / 4, PANIC_BLUE);
    put_line(&mut ops, "Kernel Panic", width / 2 - 48, height / 4 + 20, 0xFF4757);
    put_line(&mut ops, "System halted.", width / 2 - 56, height / 4 + 44, 0xE0E8F5);
    let shown = cut_message(msg);
    put_line(&mut ops, &shown, width / 2 - text::byte_len(&shown) * 4, height / 2, 0xFFFFFF);
    put_line(&mut ops, loc, width / 2 - text::byte_len(loc) * 4, height / 2 + 20, 0x8899BB);
    put_line(&mut ops, "Check serial output for full backtrace.", 32, height - 48, 0x445566);
    put_line(&mut ops, "IONA OS v0.6.0 | x86_64 bare-metal Rust", 32, height - 28, 0x334455);
    assert(canvas::inks(ops@) =~= panic_look(msg@, loc@, width as int, height as int));
    ops
}

/// Which devices a driver is tried on: the two paravirtual ones on their own devices, the
/// others by the class codes of the bus. A driver for a disk or for the network is tried
/// only while none was found, but for the disk controllers and cards that are always tried.
pub proof fn law_driver_is_tried_on_its_devices(
    driver: Driver,
    dev: &PciDevice,
    found: &Found,
    r: bool,
)
    requires
        call_ensures(Driver::fits, (driver, dev, found), r),
    ensures
        driver == Driver::VirtioBlk ==> (r <==> dev.virtio_blk && !found.has_disk),
        driver == Driver::VirtioNet ==> (r <==> dev.virtio_net && !found.has_net),
        driver == Driver::Nvme ==> (r <==> dev.class == 1 && dev.subclass == 8 && !found.has_disk),
        driver == Driver::Usb ==> (r <==> dev.class == 12 && dev.subclass == 3 && dev.prog_if == 48),
        driver == Driver::Ahci ==> (r <==> dev.class == 1 && dev.subclass == 6),
        driver == Driver::E1000 ==> (r <==> dev.vendor_id == 0x8086),
        driver == Driver::Audio ==> (r <==> dev.class == 4 && dev.subclass == 3),
{
}

/// A disk is found where a disk driver worked, and the network where the network driver
/// did; a driver of another kind changes neither.
pub proof fn law_working_driver_finds_its_kind(f: &mut Found, driver: Driver, worked: bool)
    requires
        call_ensures(Found::tried, (f, driver, worked), ()),
    ensures
        driver == Driver::VirtioBlk || driver == Driver::Nvme ==> final(f).has_disk == worked
            && final(f).has_net == old(f).has_net,
        driver == Driver::VirtioNet ==> final(f).has_net == worked && final(f).has_disk == old(
            f).has_disk,
        driver == Driver::Usb || driver == Driver::Ahci || driver == Driver::E1000 || driver
            == Driver::Audio ==> *final(f) == *old(f),
{
}

/// What is tried next is a driver that fits its device, and each of the seven drivers comes
/// to its turn on each device, device by device, in the same order.
pub proof fn law_next_probe_fits(
    s: &mut BusScan,
    devs: &Vec<PciDevice>,
    r: Option<(usize, Driver)>,
    k: int,
)
    requires
        devs.len() * 7 <= usize::MAX,
        call_ensures(BusScan::next_probe, (s, devs), r),
        old(s).place <= k < devs.len() * 7,
    ensures
        r matches Some((i, driver)) ==> i < devs.len() && wanted(
            devs@[i as int],
            driver,
            old(s).found,
        ) && final(s).place > old(s).place && (k < final(s).place - 1 ==> !wanted(
            devs@[k / 7],
            driver_at(k % 7),
            old(s).found,
        )),
        r is None ==> !wanted(devs@[k / 7], driver_at(k % 7), old(s).found),
        driver_at(0) == Driver::VirtioBlk && driver_at(1) == Driver::VirtioNet && driver_at(2)
            == Driver::Nvme && driver_at(3) == Driver::Usb && driver_at(4) == Driver::Ahci
            && driver_at(5) == Driver::E1000 && driver_at(6) == Driver::Audio,
{
    law_search_skips_nothing(devs@, old(s).place as int, old(s).found);
    if let Some(p) = next_due(devs@, old(s).place as int, old(s).found) {
        assert(k < p ==> !due_at(devs@, k, old(s).found));
        assert(p / 7 < devs.len());
    } else {
        assert(!due_at(devs@, k, old(s).found));
    }
}

/// Booting takes what lies between its start and its end, and nothing where the clock went
/// back; the start, the end and the phases are told as they were set.
pub proof fn law_boot_time_is_the_difference(
    a: &mut KernelMetrics,
    start: u64,
    b: &mut KernelMetrics,
    end: u64,
    r: KernelMetricsSnapshot,
)
    requires
        call_ensures(KernelMetrics::set_boot_start, (a, start), ()),
        *old(b) == *final(a),
        call_ensures(KernelMetrics::set_boot_end, (b, end), ()),
        call_ensures(KernelMetrics::snapshot, (&*final(b),), r),
    ensures
        start <= end ==> r.boot_start_ms + r.total_boot_ms == r.boot_end_ms,
        start > end ==> r.total_boot_ms == 0,
        r.boot_start_ms == start,
        r.boot_end_ms == end,
        r.phase_core_ms == old(a).phase_core_ms,
        r.phase_memory_ms == old(a).phase_memory_ms,
        r.phase_drivers_ms == old(a).phase_drivers_ms,
        r.phase_network_ms == old(a).phase_network_ms,
        r.phase_services_ms == old(a).phase_services_ms,
        r.phase_security_ms == old(a).phase_security_ms,
        r.phase_userspace_ms == old(a).phase_userspace_ms,
{
}

/// The time of a phase is kept under its name, and every other time stays.
pub proof fn law_phase_is_kept_under_its_name(m: &mut KernelMetrics, phase: &str, ms: u64)
    requires
        call_ensures(KernelMetrics::record_phase, (m, phase, ms), ()),
    ensures
        final(m).phase_core_ms == (if phase@ == "core"@ {
            ms
        } else {
            old(m).phase_core_ms
        }),
        final(m).phase_memory_ms == (if phase@ == "memory"@ {
            ms
        } else {
            old(m).phase_memory_ms
        }),
        final(m).phase_drivers_ms == (if phase@ == "drivers"@ {
            ms
        } else {
            old(m).phase_drivers_ms
        }),
        final(m).phase_network_ms == (if phase@ == "network"@ {
            ms
        } else {
            old(m).phase_network_ms
        }),
        final(m).phase_services_ms == (if phase@ == "services"@ {
            ms
        } else {
            old(m).phase_services_ms
        }),
        final(m).phase_security_ms == (if phase@ == "security"@ {
            ms
        } else {
            old(m).phase_security_ms
        }),
        final(m).phase_userspace_ms == (if phase@ == "userspace"@ {
            ms
        } else {
            old(m).phase_userspace_ms
        }),
        final(m).total_boot_ms == old(m).total_boot_ms,
{
    reveal_strlit("core");
    reveal_strlit("memory");
    reveal_strlit("drivers");
    reveal_strlit("network");
    reveal_strlit("services");
    reveal_strlit("security");
    reveal_strlit("userspace");
    assert("core"@[0] == 'c' && "memory"@[0] == 'm' && "drivers"@[0] == 'd' && "network"@[0] == 'n'
        && "services"@[0] == 's' && "security"@[0] == 's' && "userspace"@[0] == 'u');
    assert("services"@[2] == 'r' && "security"@[2] == 'c');
}

/// The stand-in node reconciles every half minute, attests every minute, sends word every
/// second while there is a network, and gives a sign of life every ten seconds: each deed is
/// due exactly where that much time has passed since it was done, and is then done now. The
/// height grows by one with each reconciliation.
pub proof fn law_deeds_are_done_when_due(n: &mut StubNode, now: u64, net: bool, d: StubDeeds)
    requires
        old(n).past(now),
        old(n).height < u64::MAX,
        call_ensures(StubNode::tick, (n, now, net), d),
    ensures
        d.reconcile <==> old(n).last_reconcile + 30_000 <= now,
        d.attest <==> old(n).last_attest + 60_000 <= now,
        d.gossip <==> old(n).last_gossip + 1_000 <= now && net,
        d.heartbeat <==> old(n).last_heartbeat + 10_000 <= now,
        final(n).last_reconcile == (if d.reconcile {
            now
        } else {
            old(n).last_reconcile
        }),
        final(n).last_attest == (if d.attest {
            now
        } else {
            old(n).last_attest
        }),
        final(n).last_gossip == (if d.gossip {
            now
        } else {
            old(n).last_gossip
        }),
        final(n).last_heartbeat == (if d.heartbeat {
            now
        } else {
            old(n).last_heartbeat
        }),
        final(n).height == old(n).height + (if d.reconcile {
            1int
        } else {
            0
        }),
{
}

/// The daemons that run are the same with and without a network, but for the one that
/// synchronises blocks, which comes last; that one runs first thing and then while there is
/// a network.
pub proof fn law_blocks_are_synchronised_with_a_network(
    with: Vec<Daemon>,
    without: Vec<Daemon>,
    first: bool,
    net: bool,
    due: bool,
)
    requires
        call_ensures(daemons, (true,), with),
        call_ensures(daemons, (false,), without),
        call_ensures(sync_due, (first, net), due),
    ensures
        with@ == without@.push(Daemon::BlockSync),
        !without@.contains(Daemon::BlockSync),
        without@.contains(Daemon::NetPoll) && without@.contains(Daemon::WaitWakeup)
            && without@.contains(Daemon::Monitor) && without@.contains(Daemon::SwapDaemon),
        without@.len() == 4,
        due <==> first || net,
{
    assert(without@[0] == Daemon::NetPoll && without@[1] == Daemon::WaitWakeup && without@[2]
        == Daemon::Monitor && without@[3] == Daemon::SwapDaemon);
}

/// Each protection that the settings name is taken exactly where they switch it on, and the
/// others always are.
pub proof fn law_protections_follow_the_settings(c: &KernelConfig, r: Vec<Hardening>)
    requires
        call_ensures(KernelConfig::hardening, (c,), r),
    ensures
        r@.contains(Hardening::Seccomp) <==> c.enable_seccomp,
        r@.contains(Hardening::SmepSmap) <==> c.enable_memory_protection,
        r@.contains(Hardening::Kaslr) <==> c.enable_kaslr,
        r@.contains(Hardening::StackCanary) && r@.contains(Hardening::Aslr) && r@.contains(
            Hardening::SecureBoot,
        ) && r@.contains(Hardening::Keystore) && r@.contains(Hardening::IoProtection),
{
    let base = seq![
        Hardening::StackCanary,
        Hardening::Aslr,
        Hardening::SecureBoot,
        Hardening::Keystore,
    ];
    assert(r@[0] == Hardening::StackCanary && r@[1] == Hardening::Aslr && r@[2]
        == Hardening::SecureBoot && r@[3] == Hardening::Keystore);
    let s: int = if c.enable_seccomp {
        1
    } else {
        0
    };
    let p: int = if c.enable_memory_protection {
        1
    } else {
        0
    };
    assert(r@[4 + s] == Hardening::IoProtection);
    if c.enable_seccomp {
        assert(r@[4] == Hardening::Seccomp);
    }
    if c.enable_memory_protection {
        assert(r@[5 + s] == Hardening::SmepSmap);
    }
    if c.enable_kaslr {
        assert(r@[5 + s + p] == Hardening::Kaslr);
    }
}

/// The node runs in user space exactly where its program was found and loaded.
pub proof fn law_node_runs_where_it_was_loaded(found: bool, loaded: bool, r: NodeTask)
    requires
        call_ensures(NodeTask::choose_task, (found, loaded), r),
    ensures
        r == NodeTask::UserSpace <==> found && loaded,
{
}

/// The chain is reached where its name was resolved to, and else by the gateway and by the
/// address of the settings.
pub proof fn law_chain_is_reached(
    resolved: Option<[u8; 4]>,
    gateway: [u8; 4],
    ip: [u8; 4],
    config: &KernelConfig,
    url: String,
)
    requires
        call_ensures(chain_address, (resolved, gateway), ip),
        call_ensures(chain_rpc, (resolved, config), url),
    ensures
        resolved is None ==> ip == gateway && url@ == config.chain_rpc@,
        resolved is Some ==> ip == resolved->0 && url@ == "http://"@ + text::decimal(
            ip@[0] as nat,
        ) + "."@ + text::decimal(ip@[1] as nat) + "."@ + text::decimal(ip@[2] as nat) + "."@
            + text::decimal(ip@[3] as nat) + ":9001"@,
{
    if resolved is Some {
        assert(url@ =~= "http://"@ + text::decimal(ip@[0] as nat) + "."@ + text::decimal(
            ip@[1] as nat,
        ) + "."@ + text::decimal(ip@[2] as nat) + "."@ + text::decimal(ip@[3] as nat)
            + ":9001"@);
    }
}

/// The screen of a panic is filled first; the message and the place stand in its middle, but
/// for a pixel, one under the other, and what does not fit of a message is left out at its
/// end.
pub proof fn law_panic_message_is_in_the_middle(
    msg: &str,
    loc: &str,
    w: usize,
    h: usize,
    r: Vec<DrawOp>,
)
    requires
        w > 0,
        h > 0,
        call_ensures(bsod_screen, (msg, loc, w, h), r),
        vstd::utf8::encode_utf8(msg@).len() <= 72,
    ensures
        ({
            let s = canvas::inks(r@);
            let bytes = vstd::utf8::encode_utf8(msg@).len() * 8;
            let under = vstd::utf8::encode_utf8(loc@).len() * 8;
            &&& s.len() == 9
            &&& s[0] == (Ink::Fill { x: 0, y: 0, w: w as int, h: h as int, color: 0x080418 })
            &&& s[5] is Text && s[5]->Text_text == msg@ && -1 <= 2 * s[5]->Text_x + bytes - w <= 1
            &&& s[6] is Text && s[6]->Text_text == loc@ && -1 <= 2 * s[6]->Text_x + under - w <= 1
            &&& s[6]->Text_y == s[5]->Text_y + 20
            &&& s[5]->Text_y == h as int / 2
        }),
{
}

/// What is told of a crash has what happened, where in the source it did where that is known,
/// the three registers in hexadecimal behind their names, and the calls.
pub proof fn law_crash_is_told(
    info: &str,
    location: Option<(&str, u32)>,
    at: Registers,
    calls: &str,
    r: String,
)
    requires
        call_ensures(crash_dump, (info, location, at, calls), r),
    ensures
        text::tells(r@, "Kernel Panic at "@ + info@),
        text::tells(r@, "\n"@ + location_text(location)),
        text::tells(r@, "\nRIP=0x"@ + text::hexadecimal(at.rip as nat)),
        text::tells(r@, ", RSP=0x"@ + text::hexadecimal(at.rsp as nat)),
        text::tells(r@, ", RBP=0x"@ + text::hexadecimal(at.rbp as nat)),
        text::tells(r@, "\nBacktrace:\n"@ + calls@),
{
    let pieces = seq![
        "Kernel Panic at "@,
        info@,
        "\n"@,
        location_text(location),
        "\nRIP=0x"@,
        text::hexadecimal(at.rip as nat),
        ", RSP=0x"@,
        text::hexadecimal(at.rsp as nat),
        ", RBP=0x"@,
        text::hexadecimal(at.rbp as nat),
        "\nBacktrace:\n"@,
        calls@,
    ];
    reveal_with_fuel(text::put_together, 13);
    assert(r@ == text::put_together(pieces, 12));
    text::lemma_tells(pieces, 12, 0);
    text::lemma_tells(pieces, 12, 2);
    text::lemma_tells(pieces, 12, 4);
    text::lemma_tells(pieces, 12, 6);
    text::lemma_tells(pieces, 12, 8);
    text::lemma_tells(pieces, 12, 10);
}

/// A line of the monitor has its number, the uptime in seconds with three places, the tasks,
/// the used memory in MiB and whether there is a network.
pub proof fn law_monitor_tells_its_numbers(
    n: u64,
    uptime_ms: u64,
    ready: u64,
    blocked: u64,
    used_frames: u64,
    net_up: bool,
    r: String,
)
    requires
        call_ensures(monitor_line, (n, uptime_ms, ready, blocked, used_frames, net_up), r),
        used_frames * 4096 <= u64::MAX,
    ensures
        text::tells(r@, "Monitor #"@ + text::decimal(n as nat)),
        text::tells(r@, ": uptime="@ + text::decimal((uptime_ms / 1000) as nat)),
        text::tells(r@, "."@ + text::padded(text::decimal((uptime_ms % 1000) as nat), '0', 3)),
        text::tells(r@, "s, tasks="@ + text::decimal(ready as nat)),
        text::tells(r@, "/"@ + text::decimal(blocked as nat)),
        text::tells(r@, " ready/blocked, memory="@ + text::fixed(used_frames * 4096, 1048576, 2)),
        text::tells(r@, " MiB used, net="@ + (if net_up {
            "up"@
        } else {
            "down"@
        })),
{
    let pieces = seq![
        "Monitor #"@,
        text::decimal(n as nat),
        ": uptime="@,
        text::decimal((uptime_ms / 1000) as nat),
        "."@,
        text::padded(text::decimal((uptime_ms % 1000) as nat), '0', 3),
        "s, tasks="@,
        text::decimal(ready as nat),
        "/"@,
        text::decimal(blocked as nat),
        " ready/blocked, memory="@,
        text::fixed(used_frames * 4096, 1048576, 2),
        " MiB used, net="@,
        (if net_up {
            "up"@
        } else {
            "down"@
        }),
    ];
    reveal_with_fuel(text::put_together, 15);
    assert(r@ == text::put_together(pieces, 14));
    text::lemma_tells(pieces, 14, 0);
    text::lemma_tells(pieces, 14, 2);
    text::lemma_tells(pieces, 14, 4);
    text::lemma_tells(pieces, 14, 6);
    text::lemma_tells(pieces, 14, 8);
    text::lemma_tells(pieces, 14, 10);
    text::lemma_tells(pieces, 14, 12);
}

/// A sign of life has the height and the used memory in MiB.
pub proof fn law_sign_of_life_tells_its_numbers(s: &StubNode, used_frames: u64, r: String)
    requires
        call_ensures(StubNode::heartbeat_line, (s, used_frames), r),
        used_frames * 4096 <= u64::MAX,
    ensures
        text::tells(r@, "Stub heartbeat: height="@ + text::decimal(s.height as nat)),
        text::tells(r@, ", memory="@ + text::fixed(used_frames * 4096, 1048576, 1)),
{
    let pieces = seq![
        "Stub heartbeat: height="@,
        text::decimal(s.height as nat),
        ", memory="@,
        text::fixed(used_frames * 4096, 1048576, 1),
        " MiB"@,
    ];
    reveal_with_fuel(text::put_together, 6);
    assert(r@ == text::put_together(pieces, 5));
    text::lemma_tells(pieces, 5, 0);
    text::lemma_tells(pieces, 5, 2);
}

} // verus!
