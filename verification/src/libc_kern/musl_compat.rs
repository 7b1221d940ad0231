//! musl compatibility: what the system calls of musl-linked programs compute and
//! answer. Access to user memory, mapping and sleeping are left to the caller.
use crate::text;
use vstd::prelude::*;
use vstd::string::*;

verus! {

/// Answer of a call that was given a bad address (-14).
pub const EFAULT: u64 = 0xFFFF_FFFF_FFFF_FFF2;

/// Answer of a call that names something that is not there (-2).
pub const ENOENT: u64 = 0xFFFF_FFFF_FFFF_FFFE;

/// Size of a field of `struct utsname`.
pub const UTSNAME_FIELD: usize = 65;

/// Number of fields of `struct utsname`.
pub const UTSNAME_FIELDS: usize = 5;

/// Size of `struct sysinfo`.
pub const SYSINFO_SIZE: usize = 112;

pub const PAGE_SIZE: u64 = 4096;

/// Configuration of the compatibility layer.
#[derive(Debug, Clone, Copy, PartialEq, Eq)]
pub struct MuslCompatConfig {
    pub brk_base: u64,
    pub max_heap_size: usize,
    pub track_metrics: bool,
    pub log_syscalls: bool,
}

impl Default for MuslCompatConfig {
    fn default() -> (r: Self)
        ensures
            r == (MuslCompatConfig {
                brk_base: 0x0000_4000_0000_0000,
                max_heap_size: 1_073_741_824,
                track_metrics: true,
                log_syscalls: false,
            }),
    {
        MuslCompatConfig {
            brk_base: 0x0000_4000_0000_0000,
            max_heap_size: 1_073_741_824,
            track_metrics: true,
            log_syscalls: false,
        }
    }
}

impl MuslCompatConfig {
    /// The first rule that the configuration breaks, if any.
    pub open spec fn broken_rule(&self) -> Option<Seq<char>> {
        if self.brk_base == 0 {
            Some("brk_base must be non-zero"@)
        } else if self.max_heap_size == 0 {
            Some("max_heap_size must be > 0"@)
        } else {
            None
        }
    }

    pub fn validate(&self) -> (r: Result<(), &'static str>)
        ensures
            match r {
                Ok(_) => self.broken_rule() is None,
                Err(e) => self.broken_rule() == Some(e@),
            },
    {
        if self.brk_base == 0 {
            return Err("brk_base must be non-zero");
        }
        if self.max_heap_size == 0 {
            return Err("max_heap_size must be > 0");
        }
        Ok(())
    }
}
/// Counters of the compatibility layer.
#[derive(Debug, Clone, Copy, PartialEq, Eq)]
pub struct MuslCompatMetrics {
    pub syscalls: u64,
    pub syscall_errors: u64,
    pub brk_extensions: u64,
    pub mmap_calls: u64,
    pub clock_gettime_calls: u64,
    pub nanosleep_calls: u64,
}

impl Default for MuslCompatMetrics {
    fn default() -> (r: Self)
        ensures
            r == (MuslCompatMetrics {
                syscalls: 0,
                syscall_errors: 0,
                brk_extensions: 0,
                mmap_calls: 0,
                clock_gettime_calls: 0,
                nanosleep_calls: 0,
            }),
    {
        MuslCompatMetrics {
            syscalls: 0,
            syscall_errors: 0,
            brk_extensions: 0,
            mmap_calls: 0,
            clock_gettime_calls: 0,
            nanosleep_calls: 0,
        }
    }
}

impl MuslCompatMetrics {
    /// The counters after a call of that name; one that sets the break is recorded under
    /// its name only where it extends the heap.
    pub open spec fn after_syscall(self, name: Seq<char>) -> MuslCompatMetrics {
        let m = self.after_call();
        if name == "brk"@ {
            MuslCompatMetrics { brk_extensions: self.brk_extensions.wrapping_add(1), ..m }
        } else if name == "mmap"@ {
            MuslCompatMetrics { mmap_calls: self.mmap_calls.wrapping_add(1), ..m }
        } else if name == "clock_gettime"@ {
            MuslCompatMetrics { clock_gettime_calls: self.clock_gettime_calls.wrapping_add(1), ..m }
        } else if name == "nanosleep"@ {
            MuslCompatMetrics { nanosleep_calls: self.nanosleep_calls.wrapping_add(1), ..m }
        } else {
            m
        }
    }

    /// The counters after a call that is not counted by its name.
    pub open spec fn after_call(self) -> MuslCompatMetrics {
        MuslCompatMetrics { syscalls: self.syscalls.wrapping_add(1), ..self }
    }

    /// The counters after a call that failed.
    pub open spec fn after_error(self) -> MuslCompatMetrics {
        MuslCompatMetrics { syscall_errors: self.syscall_errors.wrapping_add(1), ..self }
    }

    /// Counts a call; some are also counted by their name.
    pub fn record_syscall(&mut self, name: &str)
        ensures
            *final(self) == old(self).after_syscall(name@),
    {
        self.syscalls = self.syscalls.wrapping_add(1);
        if text::same(name, "brk") {
            self.brk_extensions = self.brk_extensions.wrapping_add(1);
        } else if text::same(name, "mmap") {
            self.mmap_calls = self.mmap_calls.wrapping_add(1);
        } else if text::same(name, "clock_gettime") {
            self.clock_gettime_calls = self.clock_gettime_calls.wrapping_add(1);
        } else if text::same(name, "nanosleep") {
            self.nanosleep_calls = self.nanosleep_calls.wrapping_add(1);
        }
    }

    pub fn record_error(&mut self)
        ensures
            *final(self) == (MuslCompatMetrics {
                syscall_errors: old(self).syscall_errors.wrapping_add(1),
                ..*old(self)
            }),
    {
        self.syscall_errors = self.syscall_errors.wrapping_add(1);
    }

    /// A copy of the counters.
    pub fn snapshot(&self) -> (r: MuslCompatMetricsSnapshot)
        ensures
            r == (MuslCompatMetricsSnapshot {
                syscalls: self.syscalls,
                syscall_errors: self.syscall_errors,
                brk_extensions: self.brk_extensions,
                mmap_calls: self.mmap_calls,
                clock_gettime_calls: self.clock_gettime_calls,
                nanosleep_calls: self.nanosleep_calls,
            }),
    {
        MuslCompatMetricsSnapshot {
            syscalls: self.syscalls,
            syscall_errors: self.syscall_errors,
            brk_extensions: self.brk_extensions,
            mmap_calls: self.mmap_calls,
            clock_gettime_calls: self.clock_gettime_calls,
            nanosleep_calls: self.nanosleep_calls,
        }
    }
}

/// A copy of [`MuslCompatMetrics`] at one moment.
#[derive(Debug, Clone, Copy, PartialEq, Eq)]
pub struct MuslCompatMetricsSnapshot {
    pub syscalls: u64,
    pub syscall_errors: u64,
    pub brk_extensions: u64,
    pub mmap_calls: u64,
    pub clock_gettime_calls: u64,
    pub nanosleep_calls: u64,
}

/// Manager of the compatibility layer.
#[derive(Debug)]
pub struct MuslCompatManager {
    pub config: MuslCompatConfig,
    pub metrics: MuslCompatMetrics,
    /// Where the heap of the program ends.
    pub program_break: u64,
}

/// The bytes to map where the heap grows from `from` to `to`: whole pages.
pub open spec fn growth(from: u64, to: u64) -> int {
    (to - from + PAGE_SIZE - 1) / PAGE_SIZE as int * PAGE_SIZE
}

impl MuslCompatManager {
    pub fn new(config: MuslCompatConfig) -> (r: Result<Self, &'static str>)
        ensures
            match r {
                Ok(m) => {
                    &&& config.broken_rule() is None
                    &&& m.config == config
                    &&& m.program_break == config.brk_base
                    &&& m.metrics == (MuslCompatMetrics {
                        syscalls: 0,
                        syscall_errors: 0,
                        brk_extensions: 0,
                        mmap_calls: 0,
                        clock_gettime_calls: 0,
                        nanosleep_calls: 0,
                    })
                },
                Err(e) => config.broken_rule() == Some(e@),
            },
    {
        match config.validate() {
            Ok(()) => {
                let program_break: u64 = config.brk_base;
                Ok(
                    MuslCompatManager {
                        config,
                        metrics: MuslCompatMetrics::default(),
                        program_break,
                    },
                )
            },
            Err(e) => Err(e),
        }
    }

    pub fn get_brk(&self) -> (r: u64)
        ensures
            r == self.program_break,
    {
        self.program_break
    }

    /// The heap would have to grow to `addr`, and may: `addr` is in the heap, which
    /// does not get too large, and the bytes to map can be counted.
    pub open spec fn grows(&self, addr: u64) -> bool {
        &&& addr > self.program_break
        &&& 0 <= addr - self.config.brk_base <= self.config.max_heap_size
        &&& growth(self.program_break, addr) <= usize::MAX
    }

    /// The manager with its counters changed, where it counts.
    pub open spec fn counting(self, metrics: MuslCompatMetrics) -> MuslCompatManager {
        if self.config.track_metrics {
            MuslCompatManager { metrics, ..self }
        } else {
            self
        }
    }

    fn count_call(&mut self, name: &str)
        ensures
            *final(self) == old(self).called(name@),
    {
        if self.config.track_metrics {
            self.metrics.record_syscall(name);
        }
    }

    fn count_plain(&mut self)
        ensures
            *final(self) == old(self).counting(old(self).metrics.after_call()),
    {
        if self.config.track_metrics {
            self.metrics.syscalls = self.metrics.syscalls.wrapping_add(1);
        }
    }

    fn count_error(&mut self)
        ensures
            *final(self) == old(self).counting(old(self).metrics.after_error()),
    {
        if self.config.track_metrics {
            self.metrics.record_error();
        }
    }

    /// What setting the break returns and leaves behind. 0 asks for the break; a
    /// lower address is taken; a higher one is taken where the heap may grow that
    /// far and `mapped`, the answer to the request for pages, is 0. Only then the call
    /// counts as an extension.
    pub open spec fn brk_outcome(
        pre: MuslCompatManager,
        post: MuslCompatManager,
        addr: u64,
        mapped: u64,
        r: u64,
    ) -> bool {
        let called = pre.counting(pre.metrics.after_call());
        let brk = pre.program_break;
        &&& r == post.program_break
        &&& if addr == 0 {
            r == brk && post == called
        } else if addr <= brk {
            r == addr && post == (MuslCompatManager { program_break: addr, ..called })
        } else if !pre.grows(addr) || mapped != 0 {
            r == brk && post == pre.counting(pre.metrics.after_call().after_error())
        } else {
            r == addr && post == (MuslCompatManager { program_break: addr, ..pre.called("brk"@) })
        }
    }

    /// Sets the program break. Where the heap has to grow, `mmap` is asked to map
    /// so many bytes from the old break on, and answers 0 where it has.
    pub fn set_brk<F: FnOnce(u64, usize) -> u64>(&mut self, addr: u64, mmap: F) -> (r: u64)
        requires
            old(self).grows(addr) ==> call_requires(
                mmap,
                (
                    old(self).program_break,
                    growth(old(self).program_break, addr) as usize,
                ),
            ),
        ensures
            exists|mapped: u64|
                (old(self).grows(addr) ==> call_ensures(
                    mmap,
                    (
                        old(self).program_break,
                        growth(old(self).program_break, addr) as usize,
                    ),
                    mapped,
                )) && #[trigger] Self::brk_outcome(
                    *old(self),
                    *final(self),
                    addr,
                    mapped,
                    r,
                ),
    {
        let brk: u64 = self.program_break;
        if addr == 0 {
            self.count_plain();
            assert(Self::brk_outcome(*old(self), *self, addr, 0, brk));
            return brk;
        }
        if addr <= brk {
            self.count_plain();
            self.program_break = addr;
            assert(Self::brk_outcome(*old(self), *self, addr, 0, addr));
            return addr;
        }
        let base: u64 = self.config.brk_base;
        let size: u64 = addr - brk;
        let pages: u64 = size / PAGE_SIZE + if size % PAGE_SIZE == 0 {
            0
        } else {
            1
        };
        assert(pages == (size + PAGE_SIZE - 1) / PAGE_SIZE as int);
        let bytes: u128 = pages as u128 * PAGE_SIZE as u128;
        if addr < base || addr - base > self.config.max_heap_size as u64 || bytes
            > usize::MAX as u128 {
            self.count_plain();
            self.count_error();
            assert(Self::brk_outcome(*old(self), *self, addr, 0, brk));
            return brk;
        }
        let mapped: u64 = mmap(brk, bytes as usize);
        let r: u64 = if mapped == 0 {
            self.count_call("brk");
            self.program_break = addr;
            addr
        } else {
            self.count_plain();
            self.count_error();
            brk
        };
        assert(Self::brk_outcome(*old(self), *self, addr, mapped, r));
        r
    }

    /// Counts the call and answers with the thread; the caller keeps the address.
    pub fn set_tid_address(&mut self, tidptr: u64, current_tid: u64) -> (r: u64)
        ensures
            r == current_tid,
            *final(self) == old(self).called("set_tid_address"@),
    {
        self.count_call("set_tid_address");
        current_tid
    }

    /// The manager after a call of that name.
    pub open spec fn called(self, name: Seq<char>) -> MuslCompatManager {
        self.counting(self.metrics.after_syscall(name))
    }

    /// The manager after a call of that name that failed.
    pub open spec fn refused(self, name: Seq<char>) -> MuslCompatManager {
        self.counting(self.metrics.after_syscall(name).after_error())
    }

    pub fn metrics_snapshot(&self) -> (r: MuslCompatMetricsSnapshot)
        ensures
            r.syscalls == self.metrics.syscalls,
            r.syscall_errors == self.metrics.syscall_errors,
            r.brk_extensions == self.metrics.brk_extensions,
            r.mmap_calls == self.metrics.mmap_calls,
            r.clock_gettime_calls == self.metrics.clock_gettime_calls,
            r.nanosleep_calls == self.metrics.nanosleep_calls,
    {
        self.metrics.snapshot()
    }

    /// Changes the configuration to a valid one; the break stays.
    pub fn set_config(&mut self, config: MuslCompatConfig) -> (r: Result<(), &'static str>)
        ensures
            match r {
                Ok(_) => config.broken_rule() is None && *final(self) == (MuslCompatManager {
                    config,
                    ..*old(self)
                }),
                Err(e) => config.broken_rule() == Some(e@) && *final(self) == *old(self),
            },
    {
        match config.validate() {
            Ok(()) => {
                self.config = config;
                Ok(())
            },
            Err(e) => Err(e),
        }
    }
}

/// A break that was set is the one that is asked for next, whichever way it was
/// set.
pub proof fn law_break_is_kept(
    m0: MuslCompatManager,
    m1: MuslCompatManager,
    m2: MuslCompatManager,
    addr: u64,
    mapped: u64,
    r: u64,
    again: u64,
    other: u64,
)
    requires
        MuslCompatManager::brk_outcome(m0, m1, addr, mapped, r),
        MuslCompatManager::brk_outcome(m1, m2, 0, other, again),
    ensures
        again == r,
        m2.program_break == m1.program_break,
        r == addr || r == m0.program_break,
{
}

// ---------------------------------------------------------------------------
// System calls
// ---------------------------------------------------------------------------

/// Sets up the compatibility layer, once; the configuration must be valid every
/// time.
pub fn init_musl_compat(
    global: &mut Option<MuslCompatManager>,
    config: MuslCompatConfig,
) -> (r: Result<(), &'static str>)
    ensures
        match r {
            Ok(_) => config.broken_rule() is None && match *old(global) {
                Some(_) => *final(global) == *old(global),
                None => *final(global) matches Some(m) && m.config == config && m.program_break
                    == config.brk_base && m.metrics == (MuslCompatMetrics {
                    syscalls: 0,
                    syscall_errors: 0,
                    brk_extensions: 0,
                    mmap_calls: 0,
                    clock_gettime_calls: 0,
                    nanosleep_calls: 0,
                }),
            },
            Err(e) => config.broken_rule() == Some(e@) && *final(global) == *old(global),
        },
{
    match MuslCompatManager::new(config) {
        Ok(m) => {
            if global.is_none() {
                *global = Some(m);
            }
            Ok(())
        },
        Err(e) => Err(e),
    }
}

/// Sets up the compatibility layer with the default configuration.
pub fn init(global: &mut Option<MuslCompatManager>)
    ensures
        match *old(global) {
            Some(_) => *final(global) == *old(global),
            None => *final(global) matches Some(m) && m.program_break == 0x0000_4000_0000_0000
                && m.config == (MuslCompatConfig {
                brk_base: 0x0000_4000_0000_0000,
                max_heap_size: 1_073_741_824,
                track_metrics: true,
                log_syscalls: false,
            }) && m.metrics == (MuslCompatMetrics {
                syscalls: 0,
                syscall_errors: 0,
                brk_extensions: 0,
                mmap_calls: 0,
                clock_gettime_calls: 0,
                nanosleep_calls: 0,
            }),
        },
{
    let _ = init_musl_compat(global, MuslCompatConfig::default());
}

/// brk: sets the end of the heap.
pub fn sys_brk<F: FnOnce(u64, usize) -> u64>(m: &mut MuslCompatManager, addr: u64, mmap: F) -> (r:
    u64)
    requires
        old(m).grows(addr) ==> call_requires(
            mmap,
            (
                old(m).program_break,
                growth(old(m).program_break, addr) as usize,
            ),
        ),
    ensures
        exists|mapped: u64|
            (old(m).grows(addr) ==> call_ensures(
                mmap,
                (
                    old(m).program_break,
                    growth(old(m).program_break, addr) as usize,
                ),
                mapped,
            )) && #[trigger] MuslCompatManager::brk_outcome(
                *old(m),
                *final(m),
                addr,
                mapped,
                r,
            ),
{
    m.set_brk(addr, mmap)
}

/// set_tid_address: answers with the thread.
pub fn sys_set_tid_address(m: &mut MuslCompatManager, tidptr: u64, current_tid: u64) -> (r: u64)
    ensures
        r == current_tid,
        *final(m) == old(m).called("set_tid_address"@),
{
    m.set_tid_address(tidptr, current_tid)
}

/// A number to write to user memory.
#[derive(Debug, Clone, Copy, PartialEq, Eq, Structural)]
pub struct UserWrite {
    pub addr: u64,
    pub value: u64,
}

/// An answer, with what goes to user memory before it is given; a write that fails
/// is ignored.
#[derive(Debug)]
pub struct Reply {
    pub value: u64,
    pub writes: Vec<UserWrite>,
}

fn refuse() -> (r: Reply)
    ensures
        r.value == EFAULT,
        r.writes@.len() == 0,
{
    Reply { value: EFAULT, writes: Vec::new() }
}

/// clock_gettime: seconds and nanoseconds since the start, from the time in
/// milliseconds. `accessible` says whether the 16 bytes are the program's own.
pub fn sys_clock_gettime(
    m: &mut MuslCompatManager,
    clk_id: u32,
    tp_user: u64,
    accessible: bool,
    uptime_ms: u64,
) -> (r: Reply)
    requires
        accessible ==> tp_user + 8 <= u64::MAX,
    ensures
        if tp_user == 0 || !accessible {
            &&& r.value == EFAULT
            &&& r.writes@.len() == 0
            &&& *final(m) == old(m).refused("clock_gettime"@)
        } else {
            &&& r.value == 0
            &&& r.writes@ == seq![
                UserWrite { addr: tp_user, value: uptime_ms / 1000 },
                UserWrite {
                    addr: (tp_user + 8) as u64,
                    value: (uptime_ms % 1000 * 1_000_000) as u64,
                },
            ]
            &&& *final(m) == old(m).called("clock_gettime"@)
        },
{
    m.count_call("clock_gettime");
    if tp_user == 0 || !accessible {
        m.count_error();
        return refuse();
    }
    let sec: u64 = uptime_ms / 1000;
    let nsec: u64 = (uptime_ms % 1000) * 1_000_000;
    let mut writes: Vec<UserWrite> = Vec::new();
    writes.push(UserWrite { addr: tp_user, value: sec });
    writes.push(UserWrite { addr: tp_user + 8, value: nsec });
    assert(writes@ =~= seq![
        UserWrite { addr: tp_user, value: sec },
        UserWrite { addr: (tp_user + 8) as u64, value: nsec },
    ]);
    Reply { value: 0, writes }
}

/// A mapping that a program asks for.
#[derive(Debug, Clone, Copy, PartialEq, Eq, Structural)]
pub struct MmapRequest {
    pub addr: u64,
    pub len: u64,
    pub prot: u32,
    pub flags: u32,
    pub fd: i64,
    pub off: u64,
}

/// mmap: hands the request on and answers what comes back.
pub fn sys_mmap6<F: FnOnce(MmapRequest) -> u64>(
    m: &mut MuslCompatManager,
    request: MmapRequest,
    mmap: F,
) -> (r: u64)
    requires
        call_requires(mmap, (request,)),
    ensures
        call_ensures(mmap, (request,), r),
        *final(m) == old(m).called("mmap"@),
{
    m.count_call("mmap");
    mmap(request)
}

/// prlimit: no limits. `accessible` says whether the 16 bytes at `old_rlim` are
/// the program's own.
pub fn sys_prlimit(m: &mut MuslCompatManager, old_rlim: u64, accessible: bool) -> (r: Reply)
    requires
        accessible ==> old_rlim + 8 <= u64::MAX,
    ensures
        if old_rlim != 0 && !accessible {
            &&& r.value == EFAULT
            &&& r.writes@.len() == 0
            &&& *final(m) == old(m).refused("prlimit"@)
        } else {
            &&& r.value == 0
            &&& r.writes@ == (if old_rlim == 0 {
                Seq::empty()
            } else {
                seq![
                    UserWrite { addr: old_rlim, value: u64::MAX },
                    UserWrite { addr: (old_rlim + 8) as u64, value: u64::MAX },
                ]
            })
            &&& *final(m) == old(m).called("prlimit"@)
        },
{
    m.count_call("prlimit");
    let mut writes: Vec<UserWrite> = Vec::new();
    if old_rlim != 0 {
        if !accessible {
            m.count_error();
            return refuse();
        }
        writes.push(UserWrite { addr: old_rlim, value: u64::MAX });
        writes.push(UserWrite { addr: old_rlim + 8, value: u64::MAX });
        assert(writes@ =~= seq![
            UserWrite { addr: old_rlim, value: u64::MAX },
            UserWrite { addr: (old_rlim + 8) as u64, value: u64::MAX },
        ]);
    }
    Reply { value: 0, writes }
}

/// getpid: the process.
pub fn sys_getpid(m: &mut MuslCompatManager, pid: u32) -> (r: u64)
    ensures
        r == pid,
        *final(m) == old(m).called("getpid"@),
{
    m.count_call("getpid");
    pid as u64
}

/// getppid: the parent process.
pub fn sys_getppid(m: &mut MuslCompatManager) -> (r: u64)
    ensures
        r == 1,
        *final(m) == old(m).called("getppid"@),
{
    m.count_call("getppid");
    1
}

/// getuid: the user.
pub fn sys_getuid(m: &mut MuslCompatManager) -> (r: u64)
    ensures
        r == 0,
        *final(m) == old(m).called("getuid"@),
{
    m.count_call("getuid");
    0
}

/// getgid: the group.
pub fn sys_getgid(m: &mut MuslCompatManager) -> (r: u64)
    ensures
        r == 0,
        *final(m) == old(m).called("getgid"@),
{
    m.count_call("getgid");
    0
}

/// geteuid: the effective user.
pub fn sys_geteuid(m: &mut MuslCompatManager) -> (r: u64)
    ensures
        r == 0,
        *final(m) == old(m).called("geteuid"@),
{
    m.count_call("geteuid");
    0
}

/// getegid: the effective group.
pub fn sys_getegid(m: &mut MuslCompatManager) -> (r: u64)
    ensures
        r == 0,
        *final(m) == old(m).called("getegid"@),
{
    m.count_call("getegid");
    0
}

/// uname: the identity of the system. `accessible` says whether the buffer is the
/// program's own, and `copy` writes to it and says whether that worked.
pub fn sys_uname<F: FnOnce(u64, &Vec<u8>) -> bool>(
    m: &mut MuslCompatManager,
    buf_user: u64,
    accessible: bool,
    copy: F,
) -> (r: u64)
    requires
        forall|buf: &Vec<u8>|
            buf@ == utsname() ==> #[trigger] call_requires(copy, (buf_user, buf)),
    ensures
        if buf_user == 0 || !accessible {
            r == EFAULT && *final(m) == old(m).refused("uname"@)
        } else {
            exists|buf: &Vec<u8>, copied: bool| #[trigger]
                call_ensures(copy, (buf_user, buf), copied) && buf@ == utsname() && if copied {
                    r == 0 && *final(m) == old(m).called("uname"@)
                } else {
                    r == EFAULT && *final(m) == old(m).refused("uname"@)
                }
        },
{
    m.count_call("uname");
    if buf_user == 0 || !accessible {
        m.count_error();
        return EFAULT;
    }
    let buf = build_utsname_buffer();
    if copy(buf_user, &buf) {
        0
    } else {
        m.count_error();
        EFAULT
    }
}

/// Byte `k` of a number, the lowest first.
pub open spec fn le_byte(x: nat, k: int) -> u8
    decreases k,
{
    if k <= 0 {
        (x % 256) as u8
    } else {
        le_byte(x / 256, k - 1)
    }
}

/// Writes a number to eight bytes of a buffer, the lowest byte first.
fn put_number(buf: &mut Vec<u8>, at: usize, x: u64)
    requires
        at + 8 <= old(buf)@.len(),
    ensures
        final(buf)@ == Seq::new(
            old(buf)@.len(),
            |k: int|
                if at <= k < at + 8 {
                    le_byte(x as nat, k - at)
                } else {
                    old(buf)@[k]
                },
        ),
{
    let ghost before = buf@;
    assert(before.len() == buf.len());
    let mut rest: u64 = x;
    let mut i: usize = 0;
    while i < 8
        invariant
            i <= 8,
            at + 8 <= before.len(),
            buf@.len() == before.len(),
            before.len() <= usize::MAX,
            forall|j: int| 0 <= j ==> #[trigger] le_byte(rest as nat, j) == le_byte(x as nat, j + i),
            forall|k: int|
                0 <= k < before.len() ==> #[trigger] buf@[k] == (if at <= k < at + i {
                    le_byte(x as nat, k - at)
                } else {
                    before[k]
                }),
        decreases 8 - i,
    {
        assert(le_byte(rest as nat, 0) == le_byte(x as nat, 0 + i));
        buf.set(at + i, (rest % 256) as u8);
        assert forall|j: int| 0 <= j implies #[trigger] le_byte((rest / 256) as nat, j) == le_byte(
            x as nat,
            j + (i + 1),
        ) by {
            assert(le_byte(rest as nat, j + 1) == le_byte(x as nat, j + 1 + i));
        }
        rest = rest / 256;
        i += 1;
    }
    assert(buf@ =~= Seq::new(
        before.len(),
        |k: int|
            if at <= k < at + 8 {
                le_byte(x as nat, k - at)
            } else {
                before[k]
            },
    ));
}

/// `struct sysinfo`: the uptime in seconds, total and free memory, and the size of
/// a page, each in eight bytes; the rest is 0.
pub open spec fn sysinfo(uptime_ms: u64, total_frames: usize, used_frames: usize) -> Seq<u8> {
    Seq::new(
        SYSINFO_SIZE as nat,
        |k: int|
            if 0 <= k < 8 {
                le_byte((uptime_ms / 1000) as nat, k)
            } else if 32 <= k < 40 {
                le_byte((total_frames * PAGE_SIZE) as nat, k - 32)
            } else if 40 <= k < 48 {
                le_byte(((total_frames - used_frames) * PAGE_SIZE) as nat, k - 40)
            } else if 48 <= k < 56 {
                le_byte(PAGE_SIZE as nat, k - 48)
            } else {
                0
            },
    )
}

/// The bytes of `struct sysinfo`.
pub fn build_sysinfo_buffer(uptime_ms: u64, total_frames: usize, used_frames: usize) -> (r: Vec<u8>)
    requires
        used_frames <= total_frames,
        total_frames * PAGE_SIZE <= u64::MAX,
    ensures
        r@ == sysinfo(uptime_ms, total_frames, used_frames),
{
    let mut buf = vec![0u8; SYSINFO_SIZE];
    let total: u64 = total_frames as u64 * PAGE_SIZE;
    let free: u64 = (total_frames - used_frames) as u64 * PAGE_SIZE;
    put_number(&mut buf, 0, uptime_ms / 1000);
    put_number(&mut buf, 32, total);
    put_number(&mut buf, 40, free);
    put_number(&mut buf, 48, PAGE_SIZE);
    assert(buf@ =~= sysinfo(uptime_ms, total_frames, used_frames));
    buf
}

/// sysinfo: memory and uptime. `accessible` says whether the buffer is the
/// program's own, and `copy` writes to it and says whether that worked.
pub fn sys_sysinfo<F: FnOnce(u64, &Vec<u8>) -> bool>(
    m: &mut MuslCompatManager,
    buf_user: u64,
    accessible: bool,
    uptime_ms: u64,
    total_frames: usize,
    used_frames: usize,
    copy: F,
) -> (r: u64)
    requires
        used_frames <= total_frames,
        total_frames * PAGE_SIZE <= u64::MAX,
        forall|buf: &Vec<u8>|
            buf@ == sysinfo(uptime_ms, total_frames, used_frames) ==> #[trigger] call_requires(
                copy,
                (buf_user, buf),
            ),
    ensures
        if buf_user == 0 || !accessible {
            r == EFAULT && *final(m) == old(m).refused("sysinfo"@)
        } else {
            exists|buf: &Vec<u8>, copied: bool| #[trigger]
                call_ensures(copy, (buf_user, buf), copied) && buf@ == sysinfo(
                    uptime_ms,
                    total_frames,
                    used_frames,
                ) && if copied {
                    r == 0 && *final(m) == old(m).called("sysinfo"@)
                } else {
                    r == EFAULT && *final(m) == old(m).refused("sysinfo"@)
                }
        },
{
    m.count_call("sysinfo");
    if buf_user == 0 || !accessible {
        m.count_error();
        return EFAULT;
    }
    let buf = build_sysinfo_buffer(uptime_ms, total_frames, used_frames);
    if copy(buf_user, &buf) {
        0
    } else {
        m.count_error();
        EFAULT
    }
}

/// The milliseconds to sleep for so many seconds and nanoseconds, at most what a
/// number can hold.
pub open spec fn sleep_time(sec: u64, nsec: u64) -> u64 {
    let ms = sec * 1000 + nsec / 1_000_000;
    if ms > u64::MAX {
        u64::MAX
    } else {
        ms as u64
    }
}

/// nanosleep: the answer, and for how many milliseconds to sleep before it is
/// given. `accessible` says whether the request is the program's own memory, and
/// `sec` and `nsec` are what could be read of it.
pub fn sys_nanosleep(
    m: &mut MuslCompatManager,
    accessible: bool,
    sec: Option<u64>,
    nsec: Option<u64>,
) -> (r: (u64, Option<u64>))
    ensures
        if accessible && sec is Some && nsec is Some {
            &&& r == (0u64, Some(sleep_time(sec->0, nsec->0)))
            &&& *final(m) == old(m).called("nanosleep"@)
        } else {
            &&& r == (EFAULT, None::<u64>)
            &&& *final(m) == old(m).refused("nanosleep"@)
        },
{
    m.count_call("nanosleep");
    if !accessible {
        m.count_error();
        return (EFAULT, None);
    }
    match (sec, nsec) {
        (Some(s), Some(n)) => {
            let whole: u64 = match s.checked_mul(1000) {
                Some(v) => v,
                None => u64::MAX,
            };
            let ms: u64 = whole.saturating_add(n / 1_000_000);
            (0, Some(ms))
        },
        _ => {
            m.count_error();
            (EFAULT, None)
        },
    }
}

/// The path is one that names the running program.
pub open spec fn names_self(path: Seq<char>) -> bool {
    path == "/proc/self/exe"@ || path == "/proc/self"@
}

/// The program that such a path leads to, with its terminator.
pub open spec fn self_target() -> Seq<u8> {
    seq![
        47u8,
        98,
        105,
        110,
        47,
        105,
        111,
        110,
        97,
        45,
        110,
        111,
        100,
        101,
        0,
    ]
}

/// readlink: for a path that names the running program, as much of where that is
/// as fits. `path` is what could be read of the program's memory, and `copy` writes
/// to it and says whether that worked.
pub fn sys_readlink<F: FnOnce(u64, &Vec<u8>) -> bool>(
    m: &mut MuslCompatManager,
    path_user: u64,
    buf_user: u64,
    bufsiz: u64,
    path: Option<&str>,
    copy: F,
) -> (r: u64)
    requires
        forall|buf: &Vec<u8>| #[trigger]
            call_requires(copy, (buf_user, buf)) || buf@ != self_target().take(
                link_len(bufsiz),
            ),
    ensures
        if path_user == 0 || buf_user == 0 || path is None {
            r == EFAULT && *final(m) == old(m).refused("readlink"@)
        } else if !names_self((path->0)@) {
            r == ENOENT && *final(m) == old(m).called("readlink"@)
        } else {
            exists|buf: &Vec<u8>, copied: bool| #[trigger]
                call_ensures(copy, (buf_user, buf), copied) && buf@ == self_target().take(
                    link_len(bufsiz),
                ) && if copied {
                    r == link_len(bufsiz) && *final(m) == old(m).called("readlink"@)
                } else {
                    r == EFAULT && *final(m) == old(m).refused("readlink"@)
                }
        },
{
    m.count_call("readlink");
    if path_user == 0 || buf_user == 0 {
        m.count_error();
        return EFAULT;
    }
    let path = match path {
        Some(p) => p,
        None => {
            m.count_error();
            return EFAULT;
        },
    };
    if !text::same(path, "/proc/self/exe") && !text::same(path, "/proc/self") {
        return ENOENT;
    }
    let mut target: Vec<u8> = vec![47, 98, 105, 110, 47, 105, 111, 110, 97, 45, 110, 111, 100, 101, 0];
    assert(target@ =~= self_target());
    let copy_len: usize = if bufsiz < 15 {
        bufsiz as usize
    } else {
        15
    };
    target.truncate(copy_len);
    assert(target@ =~= self_target().take(link_len(bufsiz)));
    if copy(buf_user, &target) {
        copy_len as u64
    } else {
        m.count_error();
        EFAULT
    }
}

/// How much of the target fits.
pub open spec fn link_len(bufsiz: u64) -> int {
    if bufsiz < 15 {
        bufsiz as int
    } else {
        15
    }
}

// ---------------------------------------------------------------------------
// Identity of the system
// ---------------------------------------------------------------------------

/// Field `i` of `struct utsname`: system, node, release, version, machine.
pub open spec fn utsname_field(i: int) -> Seq<char> {
    if i == 0 {
        "IONA OS"@
    } else if i == 1 {
        "iona"@
    } else if i == 2 {
        "0.5.0"@
    } else if i == 3 {
        "#1 SMP"@
    } else {
        "x86_64"@
    }
}

/// `struct utsname`: each field at the start of its 65 bytes, the rest 0.
pub open spec fn utsname() -> Seq<u8> {
    Seq::new(
        (UTSNAME_FIELD * UTSNAME_FIELDS) as nat,
        |k: int|
            {
                let f = utsname_field(k / UTSNAME_FIELD as int);
                let j = k % UTSNAME_FIELD as int;
                if j < f.len() {
                    f[j] as u8
                } else {
                    0
                }
            },
    )
}

/// Writes an ASCII text to a buffer.
fn put_text(buf: &mut Vec<u8>, at: usize, s: &str)
    requires
        is_ascii(s),
        at + s@.len() <= old(buf)@.len(),
    ensures
        final(buf)@ == Seq::new(
            old(buf)@.len(),
            |k: int|
                if at <= k < at + s@.len() {
                    s@[k - at] as u8
                } else {
                    old(buf)@[k]
                },
        ),
{
    let ghost before = buf@;
    assert(before.len() == buf.len());
    let bytes = s.as_bytes();
    let mut i: usize = 0;
    while i < bytes.len()
        invariant
            i <= bytes@.len(),
            bytes@ == Seq::new(s@.len(), |j: int| s@[j] as u8),
            at + s@.len() <= before.len(),
            buf@.len() == before.len(),
            before.len() <= usize::MAX,
            forall|k: int|
                0 <= k < before.len() ==> #[trigger] buf@[k] == (if at <= k < at + i {
                    s@[k - at] as u8
                } else {
                    before[k]
                }),
        decreases bytes@.len() - i,
    {
        buf.set(at + i, bytes[i]);
        i += 1;
    }
    assert(buf@ =~= Seq::new(
        before.len(),
        |k: int|
            if at <= k < at + s@.len() {
                s@[k - at] as u8
            } else {
                before[k]
            },
    ));
}

/// The bytes of `struct utsname`.
pub fn build_utsname_buffer() -> (r: Vec<u8>)
    ensures
        r@ == utsname(),
{
    let mut buf = vec![0u8; 325];
    proof {
        reveal_strlit("IONA OS");
        reveal_strlit("iona");
        reveal_strlit("0.5.0");
        reveal_strlit("#1 SMP");
        reveal_strlit("x86_64");
    }
    put_text(&mut buf, 0, "IONA OS");
    put_text(&mut buf, 65, "iona");
    put_text(&mut buf, 130, "0.5.0");
    put_text(&mut buf, 195, "#1 SMP");
    put_text(&mut buf, 260, "x86_64");
    assert(buf@ =~= utsname());
    buf
}

/// The memory that a program break grows by is whole pages, as many as hold what lies
/// between the old break and the new one.
pub proof fn law_break_grows_by_whole_pages(from: u64, to: u64)
    requires
        from < to,
    ensures
        growth(from, to) % 4096 == 0,
        to - from <= growth(from, to) < to - from + 4096,
{
}

/// The program break is what is answered. Zero asks for it; an address below it takes it
/// there. An address above it takes it there exactly where that is within the heap's limit
/// and the pages for it, from the old break on, were mapped; else it stays, and that is
/// counted as an error.
pub proof fn law_break_goes_where_it_may<F: FnOnce(u64, usize) -> u64>(
    m: &mut MuslCompatManager,
    addr: u64,
    mmap: F,
    r: u64,
)
    requires
        call_ensures(MuslCompatManager::set_brk, (m, addr, mmap), r) || call_ensures(
            sys_brk,
            (m, addr, mmap),
            r,
        ),
        old(m).config.track_metrics,
        old(m).program_break >= old(m).config.brk_base,
    ensures
        r == final(m).program_break,
        addr == 0 ==> r == old(m).program_break,
        0 < addr <= old(m).program_break ==> r == addr,
        addr > old(m).program_break ==> r == addr || r == old(m).program_break,
        addr > old(m).program_break && r == addr ==> addr - old(m).config.brk_base <= old(
            m).config.max_heap_size && call_ensures(
            mmap,
            (old(m).program_break, growth(old(m).program_break, addr) as usize),
            0,
        ),
        addr > old(m).program_break && addr - old(m).config.brk_base > old(m).config.max_heap_size
            ==> r == old(m).program_break,
        old(m).metrics.syscalls < u64::MAX ==> final(m).metrics.syscalls == old(m).metrics.syscalls
            + 1,
        addr > old(m).program_break && r == old(m).program_break && old(m).metrics.syscall_errors
            < u64::MAX ==> final(m).metrics.syscall_errors == old(m).metrics.syscall_errors + 1,
        addr <= old(m).program_break ==> final(m).metrics.syscall_errors == old(
            m).metrics.syscall_errors && final(m).metrics.brk_extensions == old(
            m).metrics.brk_extensions,
        addr > old(m).program_break && r == addr && old(m).metrics.brk_extensions < u64::MAX
            ==> final(m).metrics.brk_extensions == old(m).metrics.brk_extensions + 1,
{
}

/// The clock is told in seconds and nanoseconds that together are the time since the start,
/// at two neighbouring words of the program; without a place to tell it nothing is written.
pub proof fn law_clock_tells_the_uptime(
    m: &mut MuslCompatManager,
    id: u32,
    at: u64,
    accessible: bool,
    uptime: u64,
    r: Reply,
)
    requires
        accessible ==> at + 8 <= u64::MAX,
        call_ensures(sys_clock_gettime, (m, id, at, accessible, uptime), r),
    ensures
        at != 0 && accessible ==> {
            &&& r.value == 0
            &&& r.writes@.len() == 2
            &&& r.writes@[0].addr == at
            &&& r.writes@[1].addr == at + 8
            &&& r.writes@[0].value * 1000 + r.writes@[1].value as int / 1_000_000 == uptime
            &&& r.writes@[1].value < 1_000_000_000
            &&& r.writes@[1].value as int % 1_000_000 == 0
        },
        at == 0 || !accessible ==> r.value == 0xFFFF_FFFF_FFFF_FFF2 && r.writes@.len() == 0,
        old(m).config.track_metrics && old(m).metrics.clock_gettime_calls < u64::MAX ==> final(
            m).metrics.clock_gettime_calls == old(m).metrics.clock_gettime_calls + 1,
        final(m).program_break == old(m).program_break,
{
    reveal_strlit("clock_gettime");
    reveal_strlit("brk");
    reveal_strlit("mmap");
    assert("clock_gettime"@.len() == 13 && "brk"@.len() == 3 && "mmap"@.len() == 4);
}

/// A sleep takes the whole milliseconds of its seconds and nanoseconds, or the longest time
/// there is; without both it is refused.
pub proof fn law_sleep_takes_its_time(
    m: &mut MuslCompatManager,
    accessible: bool,
    sec: Option<u64>,
    nsec: Option<u64>,
    r: (u64, Option<u64>),
)
    requires
        call_ensures(sys_nanosleep, (m, accessible, sec, nsec), r),
    ensures
        r.1 is Some <==> accessible && sec is Some && nsec is Some,
        r.1 is Some ==> r.0 == 0,
        r.1 is None ==> r.0 == 0xFFFF_FFFF_FFFF_FFF2,
        r.1 matches Some(ms) ==> {
            let all = sec->0 * 1_000_000_000 + nsec->0;
            &&& ms * 1_000_000 <= all
            &&& ms < u64::MAX ==> all < (ms + 1) * 1_000_000
        },
{
}

/// The number that so many bytes stand for, the lowest first.
pub open spec fn number_at(s: Seq<u8>, at: int, n: nat) -> nat
    decreases n,
{
    if n == 0 {
        0
    } else {
        s[at] as nat + 256 * number_at(s, at + 1, (n - 1) as nat)
    }
}

/// One more than the largest number that so many bytes stand for.
pub open spec fn beyond(n: nat) -> nat
    decreases n,
{
    if n == 0 {
        1
    } else {
        256 * beyond((n - 1) as nat)
    }
}

proof fn lemma_number_at(s: Seq<u8>, at: int, n: nat, x: nat)
    requires
        x < beyond(n),
        forall|k: int| 0 <= k < n ==> #[trigger] s[at + k] == le_byte(x, k),
    ensures
        number_at(s, at, n) == x,
    decreases n,
{
    if n > 0 {
        assert(s[at + 0] == le_byte(x, 0));
        let y = x / 256;
        assert forall|k: int| 0 <= k < n - 1 implies #[trigger] s[at + 1 + k] == le_byte(y, k) by {
            assert(s[at + (k + 1)] == le_byte(x, k + 1));
        }
        lemma_number_at(s, at + 1, (n - 1) as nat, y);
    }
}

/// The system's numbers stand at their places, the lowest byte first: the seconds since the
/// start, all memory and free memory in bytes, and the size of a page. Everything else is
/// zero.
pub proof fn law_system_numbers_are_at_their_places(
    uptime: u64,
    total: usize,
    used: usize,
    r: Vec<u8>,
    k: int,
)
    requires
        used <= total,
        total * 4096 <= u64::MAX,
        call_ensures(build_sysinfo_buffer, (uptime, total, used), r),
        0 <= k < 112,
    ensures
        r@.len() == 112,
        number_at(r@, 0, 8) * 1000 <= uptime < number_at(r@, 0, 8) * 1000 + 1000,
        number_at(r@, 32, 8) == total * 4096,
        number_at(r@, 40, 8) + used * 4096 == number_at(r@, 32, 8),
        number_at(r@, 48, 8) == 4096,
        8 <= k < 32 || 56 <= k ==> r@[k] == 0,
{
    reveal_with_fuel(beyond, 9);
    assert(beyond(8) == 0x1_0000_0000_0000_0000);
    let s = r@;
    let secs = (uptime / 1000) as nat;
    let all = (total * PAGE_SIZE) as nat;
    let free = ((total - used) * PAGE_SIZE) as nat;
    assert forall|i: int| 0 <= i < 8 implies #[trigger] s[0 + i] == le_byte(secs, i) by {}
    lemma_number_at(s, 0, 8, secs);
    assert forall|i: int| 0 <= i < 8 implies #[trigger] s[32 + i] == le_byte(all, i) by {}
    lemma_number_at(s, 32, 8, all);
    assert forall|i: int| 0 <= i < 8 implies #[trigger] s[40 + i] == le_byte(free, i) by {}
    lemma_number_at(s, 40, 8, free);
    assert forall|i: int| 0 <= i < 8 implies #[trigger] s[48 + i] == le_byte(4096, i) by {}
    lemma_number_at(s, 48, 8, 4096);
}

/// The names of the system stand in fields of 65 bytes, each from the start of its field on
/// with zeros behind: the system, the host, the release, the version and the machine.
pub proof fn law_system_names_are_in_their_fields(r: Vec<u8>, i: int, j: int)
    requires
        call_ensures(build_utsname_buffer, (), r),
        0 <= i < 5,
        0 <= j < 65,
    ensures
        r@.len() == 325,
        ({
            let name = if i == 0 {
                "IONA OS"@
            } else if i == 1 {
                "iona"@
            } else if i == 2 {
                "0.5.0"@
            } else if i == 3 {
                "#1 SMP"@
            } else {
                "x86_64"@
            };
            &&& j < name.len() ==> r@[65 * i + j] == name[j] as u8
            &&& j >= name.len() ==> r@[65 * i + j] == 0
        }),
{
    let k = 65 * i + j;
    assert(k / 65 == i && k % 65 == j);
}

/// A link is read only where it names the process itself. Then as much of the node's path as
/// the program has room for is copied, with its zero, and how much is answered.
pub proof fn law_own_link_is_read<F: FnOnce(u64, &Vec<u8>) -> bool>(
    m: &mut MuslCompatManager,
    path_at: u64,
    buf_at: u64,
    room: u64,
    path: Option<&str>,
    copy: F,
    r: u64,
)
    requires
        call_ensures(sys_readlink, (m, path_at, buf_at, room, path, copy), r),
    ensures
        path_at == 0 || buf_at == 0 || path is None ==> r == 0xFFFF_FFFF_FFFF_FFF2,
        path_at != 0 && buf_at != 0 && path is Some && (path->0)@ != "/proc/self/exe"@ && (
        path->0)@ != "/proc/self"@ ==> r == 0xFFFF_FFFF_FFFF_FFFE,
        path_at != 0 && buf_at != 0 && path is Some && ((path->0)@ == "/proc/self/exe"@ || (
        path->0)@ == "/proc/self"@) ==> r == 0xFFFF_FFFF_FFFF_FFF2 || (r <= room && r <= 15 && (r
            == room || r == 15)),
        final(m).program_break == old(m).program_break,
{
}

/// Each call is counted once, and a refused one as an error too, where calls are counted.
pub proof fn law_calls_are_counted(
    a: &mut MuslCompatManager,
    pid: u32,
    r: u64,
    b: &mut MuslCompatManager,
    at: u64,
    accessible: bool,
    reply: Reply,
)
    requires
        call_ensures(sys_getpid, (a, pid), r),
        accessible ==> at + 8 <= u64::MAX,
        call_ensures(sys_prlimit, (b, at, accessible), reply),
        old(a).metrics.syscalls < u64::MAX,
        old(b).metrics.syscall_errors < u64::MAX,
    ensures
        r == pid,
        old(a).config.track_metrics ==> final(a).metrics.syscalls == old(a).metrics.syscalls + 1,
        !old(a).config.track_metrics ==> *final(a) == *old(a),
        final(a).metrics.syscall_errors == old(a).metrics.syscall_errors,
        at != 0 && !accessible ==> reply.value == 0xFFFF_FFFF_FFFF_FFF2 && reply.writes@.len() == 0,
        at != 0 && !accessible && old(b).config.track_metrics ==> final(b).metrics.syscall_errors
            == old(b).metrics.syscall_errors + 1,
        at != 0 && accessible ==> reply.value == 0 && reply.writes@.len() == 2
            && reply.writes@[0].addr == at && reply.writes@[1].addr == at + 8
            && reply.writes@[0].value == u64::MAX && reply.writes@[1].value == u64::MAX,
        at == 0 ==> reply.value == 0 && reply.writes@.len() == 0,
{
}

/// Settings pass exactly where the break has a place and the heap a byte.
pub proof fn law_break_settings_are_possible(c: &MuslCompatConfig, r: Result<(), &'static str>)
    requires
        call_ensures(MuslCompatConfig::validate, (c,), r),
    ensures
        r is Ok <==> c.brk_base != 0 && c.max_heap_size > 0,
        c.brk_base == 0 ==> r is Err && r->Err_0@ == "brk_base must be non-zero"@,
{
}

} // verus!
