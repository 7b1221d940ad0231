//! Kernel log: levels, a ring of the latest entries, and the lines that go to the
//! serial port and to the log file.
use crate::text;
use std::collections::VecDeque;
use vstd::prelude::*;
use vstd::string::*;
use vstd::utf8::*;

verus! {

/// Log level.
#[derive(Debug, Clone, Copy, PartialEq, Eq, PartialOrd, Ord, Structural)]
pub enum LogLevel {
    Debug,
    Info,
    Warn,
    Error,
}

impl LogLevel {
    /// Levels in ascending order have ascending ranks.
    pub open spec fn spec_rank(self) -> u8 {
        match self {
            LogLevel::Debug => 0,
            LogLevel::Info => 1,
            LogLevel::Warn => 2,
            LogLevel::Error => 3,
        }
    }

    pub fn rank(self) -> (r: u8)
        ensures
            r == self.spec_rank(),
    {
        match self {
            LogLevel::Debug => 0,
            LogLevel::Info => 1,
            LogLevel::Warn => 2,
            LogLevel::Error => 3,
        }
    }

    pub open spec fn spec_str(self) -> Seq<char> {
        match self {
            LogLevel::Debug => "DBG"@,
            LogLevel::Info => "INF"@,
            LogLevel::Warn => "WRN"@,
            LogLevel::Error => "ERR"@,
        }
    }

    pub fn as_str(self) -> (r: &'static str)
        ensures
            r@ == self.spec_str(),
    {
        match self {
            LogLevel::Debug => "DBG",
            LogLevel::Info => "INF",
            LogLevel::Warn => "WRN",
            LogLevel::Error => "ERR",
        }
    }

    pub open spec fn spec_prefix(self) -> Seq<char> {
        match self {
            LogLevel::Debug => "[DBG] "@,
            LogLevel::Info => "[INF] "@,
            LogLevel::Warn => "[WRN] "@,
            LogLevel::Error => "[ERR] "@,
        }
    }

    /// What a line of this level begins with.
    pub fn prefix(self) -> (r: &'static str)
        ensures
            r@ == self.spec_prefix(),
    {
        match self {
            LogLevel::Debug => "[DBG] ",
            LogLevel::Info => "[INF] ",
            LogLevel::Warn => "[WRN] ",
            LogLevel::Error => "[ERR] ",
        }
    }

    /// The level with that name.
    pub open spec fn named(s: Seq<char>) -> Option<LogLevel> {
        if s == "debug"@ {
            Some(LogLevel::Debug)
        } else if s == "info"@ {
            Some(LogLevel::Info)
        } else if s == "warn"@ {
            Some(LogLevel::Warn)
        } else if s == "error"@ {
            Some(LogLevel::Error)
        } else {
            None
        }
    }

    pub fn from_str(s: &str) -> (r: Option<Self>)
        ensures
            r == Self::named(s@),
    {
        if text::same(s, "debug") {
            Some(LogLevel::Debug)
        } else if text::same(s, "info") {
            Some(LogLevel::Info)
        } else if text::same(s, "warn") {
            Some(LogLevel::Warn)
        } else if text::same(s, "error") {
            Some(LogLevel::Error)
        } else {
            None
        }
    }
}

/// Configuration of the log.
#[derive(Debug, PartialEq, Eq)]
pub struct LogConfig {
    pub min_level: LogLevel,
    pub ring_capacity: usize,
    pub persist_errors: bool,
    pub persist_path: String,
    pub log_timestamps: bool,
    pub collect_metrics: bool,
    pub log_serial: bool,
}

impl Default for LogConfig {
    fn default() -> (r: Self)
        ensures
            r.min_level == LogLevel::Info,
            r.ring_capacity == 1024,
            r.persist_errors,
            r.persist_path@ == "/var/log/kernel.log"@,
            r.log_timestamps,
            r.collect_metrics,
            r.log_serial,
            r.broken_rule() is None,
    {
        proof {
            reveal_strlit("/var/log/kernel.log");
        }
        LogConfig {
            min_level: LogLevel::Info,
            ring_capacity: 1024,
            persist_errors: true,
            persist_path: "/var/log/kernel.log".to_owned(),
            log_timestamps: true,
            collect_metrics: true,
            log_serial: true,
        }
    }
}

impl Clone for LogConfig {
    fn clone(&self) -> (r: Self)
        ensures
            r == *self,
    {
        LogConfig {
            min_level: self.min_level,
            ring_capacity: self.ring_capacity,
            persist_errors: self.persist_errors,
            persist_path: self.persist_path.clone(),
            log_timestamps: self.log_timestamps,
            collect_metrics: self.collect_metrics,
            log_serial: self.log_serial,
        }
    }
}

impl LogConfig {
    /// The first rule that the configuration breaks, if any.
    pub open spec fn broken_rule(&self) -> Option<Seq<char>> {
        if self.ring_capacity == 0 {
            Some("ring_capacity must be > 0"@)
        } else if self.persist_path@.len() == 0 {
            Some("persist_path must not be empty"@)
        } else {
            None
        }
    }

    pub fn validate(&self) -> (r: Result<(), &'static str>)
        ensures
            match r {
                Ok(_) => self.broken_rule() is None,
                Err(e) => self.broken_rule() == Some(e@),
            },
    {
        if self.ring_capacity == 0 {
            return Err("ring_capacity must be > 0");
        }
        if self.persist_path.as_str().unicode_len() == 0 {
            return Err("persist_path must not be empty");
        }
        Ok(())
    }

    pub fn with_metrics(self) -> (r: Self)
        ensures
            r == (LogConfig { collect_metrics: true, ..self }),
    {
        LogConfig { collect_metrics: true, ..self }
    }
}

#[derive(Debug, PartialEq, Eq)]
pub enum LogError {
    RingFull,
    Persistence(String),
    Config(String),
}

pub type LogResult<T> = Result<T, LogError>;

/// A log entry.
#[derive(Debug, PartialEq, Eq)]
pub struct LogEntry {
    pub level: LogLevel,
    pub ts_ms: u64,
    pub msg: String,
}

impl Clone for LogEntry {
    fn clone(&self) -> (r: Self)
        ensures
            r == *self,
    {
        LogEntry { level: self.level, ts_ms: self.ts_ms, msg: self.msg.clone() }
    }
}

impl LogEntry {
    /// The entry as a line, with the time in milliseconds in front where
    /// `timestamps` says so.
    pub open spec fn spec_line(&self, timestamps: bool) -> Seq<char> {
        (if timestamps {
            seq!['['] + text::padded(text::decimal(self.ts_ms as nat), ' ', 8) + "ms]"@
        } else {
            Seq::empty()
        }) + self.level.spec_prefix() + self.msg@ + seq!['\n']
    }

    pub fn line(&self, timestamps: bool) -> (r: String)
        ensures
            r@ == self.spec_line(timestamps),
    {
        let mut out = String::new();
        if timestamps {
            out.push('[');
            text::push_space_padded(&mut out, self.ts_ms, 8);
            out.append("ms]");
            assert(out@ =~= seq!['['] + text::padded(text::decimal(self.ts_ms as nat), ' ', 8)
                + "ms]"@);
        }
        out.append(self.level.prefix());
        out.append(self.msg.as_str());
        out.push('\n');
        assert(out@ =~= self.spec_line(timestamps));
        out
    }
}

/// Statistics about the ring.
#[derive(Debug, Clone, Copy, PartialEq, Eq)]
pub struct LogStats {
    pub total_entries: u64,
    pub debug_count: u64,
    pub info_count: u64,
    pub warn_count: u64,
    pub error_count: u64,
    pub dropped_count: u64,
    pub ring_usage: usize,
}

impl Default for LogStats {
    fn default() -> (r: Self)
        ensures
            r == (LogStats {
                total_entries: 0,
                debug_count: 0,
                info_count: 0,
                warn_count: 0,
                error_count: 0,
                dropped_count: 0,
                ring_usage: 0,
            }),
    {
        LogStats {
            total_entries: 0,
            debug_count: 0,
            info_count: 0,
            warn_count: 0,
            error_count: 0,
            dropped_count: 0,
            ring_usage: 0,
        }
    }
}

/// Counters of the log.
#[derive(Debug, Clone, Copy, PartialEq, Eq)]
pub struct LogMetrics {
    pub total_entries: u64,
    pub debug_count: u64,
    pub info_count: u64,
    pub warn_count: u64,
    pub error_count: u64,
    pub dropped_count: u64,
    pub persist_failures: u64,
}

impl Default for LogMetrics {
    fn default() -> (r: Self)
        ensures
            r == (LogMetrics {
                total_entries: 0,
                debug_count: 0,
                info_count: 0,
                warn_count: 0,
                error_count: 0,
                dropped_count: 0,
                persist_failures: 0,
            }),
    {
        LogMetrics {
            total_entries: 0,
            debug_count: 0,
            info_count: 0,
            warn_count: 0,
            error_count: 0,
            dropped_count: 0,
            persist_failures: 0,
        }
    }
}

impl LogMetrics {
    /// The counters after an entry of that level.
    pub open spec fn after_entry(self, level: LogLevel) -> LogMetrics {
        let m = LogMetrics { total_entries: self.total_entries.wrapping_add(1), ..self };
        match level {
            LogLevel::Debug => LogMetrics { debug_count: self.debug_count.wrapping_add(1), ..m },
            LogLevel::Info => LogMetrics { info_count: self.info_count.wrapping_add(1), ..m },
            LogLevel::Warn => LogMetrics { warn_count: self.warn_count.wrapping_add(1), ..m },
            LogLevel::Error => LogMetrics { error_count: self.error_count.wrapping_add(1), ..m },
        }
    }

    /// Counts an entry.
    pub fn inc_level(&mut self, level: LogLevel)
        ensures
            *final(self) == old(self).after_entry(level),
    {
        self.total_entries = self.total_entries.wrapping_add(1);
        match level {
            LogLevel::Debug => {
                self.debug_count = self.debug_count.wrapping_add(1);
            },
            LogLevel::Info => {
                self.info_count = self.info_count.wrapping_add(1);
            },
            LogLevel::Warn => {
                self.warn_count = self.warn_count.wrapping_add(1);
            },
            LogLevel::Error => {
                self.error_count = self.error_count.wrapping_add(1);
            },
        }
    }

    pub fn inc_dropped(&mut self)
        ensures
            *final(self) == (LogMetrics {
                dropped_count: old(self).dropped_count.wrapping_add(1),
                ..*old(self)
            }),
    {
        self.dropped_count = self.dropped_count.wrapping_add(1);
    }

    pub fn inc_persist_failure(&mut self)
        ensures
            *final(self) == (LogMetrics {
                persist_failures: old(self).persist_failures.wrapping_add(1),
                ..*old(self)
            }),
    {
        self.persist_failures = self.persist_failures.wrapping_add(1);
    }

    /// A copy of the counters.
    pub fn snapshot(&self) -> (r: LogMetricsSnapshot)
        ensures
            r == (LogMetricsSnapshot {
                total_entries: self.total_entries,
                debug_count: self.debug_count,
                info_count: self.info_count,
                warn_count: self.warn_count,
                error_count: self.error_count,
                dropped_count: self.dropped_count,
                persist_failures: self.persist_failures,
            }),
    {
        LogMetricsSnapshot {
            total_entries: self.total_entries,
            debug_count: self.debug_count,
            info_count: self.info_count,
            warn_count: self.warn_count,
            error_count: self.error_count,
            dropped_count: self.dropped_count,
            persist_failures: self.persist_failures,
        }
    }
}

/// A copy of [`LogMetrics`] at one moment.
#[derive(Debug, Clone, Copy, PartialEq, Eq)]
pub struct LogMetricsSnapshot {
    pub total_entries: u64,
    pub debug_count: u64,
    pub info_count: u64,
    pub warn_count: u64,
    pub error_count: u64,
    pub dropped_count: u64,
    pub persist_failures: u64,
}

// ---------------------------------------------------------------------------
// The ring
// ---------------------------------------------------------------------------

/// Ring of the latest entries, oldest first.
#[derive(Debug)]
pub struct LogRing {
    pub entries: VecDeque<LogEntry>,
    pub capacity: usize,
}

/// The entries after another one: where there are as many as the ring holds, the
/// oldest goes.
pub open spec fn ring_after(
    entries: Seq<LogEntry>,
    entry: LogEntry,
    capacity: usize,
) -> Seq<LogEntry> {
    if entries.len() >= capacity && entries.len() > 0 {
        entries.drop_first().push(entry)
    } else {
        entries.push(entry)
    }
}

/// The entries after several more.
pub open spec fn ring_after_all(
    entries: Seq<LogEntry>,
    more: Seq<LogEntry>,
    capacity: usize,
) -> Seq<LogEntry>
    decreases more.len(),
{
    if more.len() == 0 {
        entries
    } else {
        ring_after(ring_after_all(entries, more.drop_last(), capacity), more.last(), capacity)
    }
}

/// Whatever is pushed, the ring holds the latest entries in their order, as many
/// as it has room for.
pub proof fn law_ring_keeps_latest(
    entries: Seq<LogEntry>,
    more: Seq<LogEntry>,
    capacity: usize,
)
    requires
        capacity > 0,
        entries.len() <= capacity,
    ensures
        ({
            let all = entries + more;
            ring_after_all(entries, more, capacity) == (if all.len() <= capacity {
                all
            } else {
                all.skip(all.len() - capacity)
            })
        }),
    decreases more.len(),
{
    let all = entries + more;
    if more.len() == 0 {
        assert(all =~= entries);
    } else {
        law_ring_keeps_latest(entries, more.drop_last(), capacity);
        let before = entries + more.drop_last();
        assert(all =~= before.push(more.last()));
        let r = ring_after_all(entries, more, capacity);
        if all.len() <= capacity {
            assert(r =~= all);
        } else if before.len() <= capacity {
            assert(r =~= all.skip(all.len() - capacity));
        } else {
            assert(before.skip(before.len() - capacity).drop_first().push(more.last())
                =~= all.skip(all.len() - capacity));
        }
    }
}

/// The lines from entry `i` on, as many as fit after `out` into `max` bytes.
pub open spec fn dumped(
    entries: Seq<LogEntry>,
    i: int,
    out: Seq<char>,
    max: int,
    timestamps: bool,
) -> Seq<char>
    decreases entries.len() - i,
{
    if i >= entries.len() || i < 0 {
        out
    } else {
        let line = entries[i].spec_line(timestamps);
        if encode_utf8(out).len() + encode_utf8(line).len() > max {
            out
        } else {
            dumped(entries, i + 1, out + line, max, timestamps)
        }
    }
}

/// A dump has at most the bytes that were asked for.
pub proof fn law_dump_fits(
    entries: Seq<LogEntry>,
    i: int,
    out: Seq<char>,
    max: int,
    timestamps: bool,
)
    requires
        encode_utf8(out).len() <= max,
    ensures
        encode_utf8(dumped(entries, i, out, max, timestamps)).len() <= max,
    decreases entries.len() - i,
{
    if 0 <= i < entries.len() {
        let line = entries[i].spec_line(timestamps);
        if encode_utf8(out).len() + encode_utf8(line).len() <= max {
            text::lemma_encoded_concat(out, line);
            law_dump_fits(entries, i + 1, out + line, max, timestamps);
        }
    }
}

/// How many entries have the level.
pub open spec fn count_level(entries: Seq<LogEntry>, level: LogLevel) -> nat
    decreases entries.len(),
{
    if entries.len() == 0 {
        0
    } else {
        count_level(entries.drop_last(), level) + if entries.last().level == level {
            1nat
        } else {
            0nat
        }
    }
}

proof fn lemma_count_bound(entries: Seq<LogEntry>, level: LogLevel)
    ensures
        count_level(entries, level) <= entries.len(),
    decreases entries.len(),
{
    if entries.len() > 0 {
        lemma_count_bound(entries.drop_last(), level);
    }
}

impl LogRing {
    pub fn new(config: &LogConfig) -> (r: Self)
        ensures
            r.entries@.len() == 0,
            r.capacity == config.ring_capacity,
    {
        LogRing { entries: VecDeque::new(), capacity: config.ring_capacity }
    }

    /// Adds an entry; the oldest goes where the ring is full.
    pub fn push(&mut self, entry: LogEntry, metrics: &mut LogMetrics) -> (r: LogResult<()>)
        ensures
            r is Ok,
            final(self).capacity == old(self).capacity,
            final(self).entries@ == ring_after(old(self).entries@, entry, old(self).capacity),
            *final(metrics) == (if old(self).entries@.len() >= old(self).capacity {
                LogMetrics {
                    dropped_count: old(metrics).dropped_count.wrapping_add(1),
                    ..*old(metrics)
                }
            } else {
                *old(metrics)
            }),
    {
        if self.entries.len() >= self.capacity {
            if self.entries.len() > 0 {
                let _ = self.entries.pop_front();
                assert(self.entries@ =~= old(self).entries@.drop_first());
            }
            metrics.inc_dropped();
        }
        self.entries.push_back(entry);
        Ok(())
    }

    /// The entries as lines, oldest first, as many as fit into `max_bytes`.
    pub fn dump(&self, max_bytes: usize, timestamps: bool) -> (r: String)
        ensures
            r@ == dumped(self.entries@, 0, Seq::empty(), max_bytes as int, timestamps),
    {
        let mut out = String::new();
        let mut i: usize = 0;
        while i < self.entries.len()
            invariant
                i <= self.entries@.len(),
                dumped(self.entries@, 0, Seq::empty(), max_bytes as int, timestamps) == dumped(
                    self.entries@,
                    i as int,
                    out@,
                    max_bytes as int,
                    timestamps,
                ),
            decreases self.entries@.len() - i,
        {
            let line = self.entries[i].line(timestamps);
            let n: usize = text::byte_len(line.as_str());
            if n > max_bytes || text::byte_len(out.as_str()) > max_bytes - n {
                return out;
            }
            out.append(line.as_str());
            i += 1;
        }
        out
    }

    pub fn len(&self) -> (r: usize)
        ensures
            r == self.entries@.len(),
    {
        self.entries.len()
    }

    pub fn is_empty(&self) -> (r: bool)
        ensures
            r == (self.entries@.len() == 0),
    {
        self.entries.len() == 0
    }

    pub fn clear(&mut self)
        ensures
            final(self).entries@.len() == 0,
            final(self).capacity == old(self).capacity,
    {
        self.entries.clear();
    }

    pub open spec fn spec_stats(&self) -> LogStats {
        LogStats {
            total_entries: self.entries@.len() as u64,
            debug_count: count_level(self.entries@, LogLevel::Debug) as u64,
            info_count: count_level(self.entries@, LogLevel::Info) as u64,
            warn_count: count_level(self.entries@, LogLevel::Warn) as u64,
            error_count: count_level(self.entries@, LogLevel::Error) as u64,
            dropped_count: 0,
            ring_usage: self.entries@.len() as usize,
        }
    }

    /// Counts the entries by level.
    pub fn stats(&self) -> (r: LogStats)
        ensures
            r == self.spec_stats(),
    {
        let mut stats = LogStats::default();
        stats.ring_usage = self.entries.len();
        let mut i: usize = 0;
        proof {
            assert(self.entries@.take(0) =~= Seq::<LogEntry>::empty());
        }
        while i < self.entries.len()
            invariant
                i <= self.entries@.len(),
                self.entries@.len() <= usize::MAX,
                stats == (LogStats {
                    total_entries: i as u64,
                    debug_count: count_level(self.entries@.take(i as int), LogLevel::Debug) as u64,
                    info_count: count_level(self.entries@.take(i as int), LogLevel::Info) as u64,
                    warn_count: count_level(self.entries@.take(i as int), LogLevel::Warn) as u64,
                    error_count: count_level(self.entries@.take(i as int), LogLevel::Error) as u64,
                    dropped_count: 0,
                    ring_usage: self.entries@.len() as usize,
                }),
            decreases self.entries@.len() - i,
        {
            proof {
                let part = self.entries@.take(i as int);
                assert(self.entries@.take(i + 1).drop_last() =~= part);
                assert(self.entries@.take(i + 1).last() == self.entries@[i as int]);
                lemma_count_bound(part, LogLevel::Debug);
                lemma_count_bound(part, LogLevel::Info);
                lemma_count_bound(part, LogLevel::Warn);
                lemma_count_bound(part, LogLevel::Error);
            }
            stats.total_entries = stats.total_entries + 1;
            match self.entries[i].level {
                LogLevel::Debug => {
                    stats.debug_count = stats.debug_count + 1;
                },
                LogLevel::Info => {
                    stats.info_count = stats.info_count + 1;
                },
                LogLevel::Warn => {
                    stats.warn_count = stats.warn_count + 1;
                },
                LogLevel::Error => {
                    stats.error_count = stats.error_count + 1;
                },
            }
            i += 1;
        }
        assert(self.entries@.take(i as int) =~= self.entries@);
        stats
    }
}

// ---------------------------------------------------------------------------
// Where entries go
// ---------------------------------------------------------------------------

/// What of an entry goes to the serial port.
pub struct SerialWriter;

impl SerialWriter {
    pub open spec fn spec_write(entry: LogEntry, config: LogConfig) -> Option<Seq<char>> {
        if config.log_serial {
            Some(entry.spec_line(config.log_timestamps))
        } else {
            None
        }
    }

    pub fn write(entry: &LogEntry, config: &LogConfig) -> (r: Option<String>)
        ensures
            text_of(r) == Self::spec_write(*entry, *config),
    {
        if !config.log_serial {
            return None;
        }
        Some(entry.line(config.log_timestamps))
    }
}

/// What of an entry goes to the log file: errors only.
pub struct FsWriter;

impl FsWriter {
    pub open spec fn spec_write(entry: LogEntry, config: LogConfig) -> Option<Seq<char>> {
        if config.persist_errors && entry.level == LogLevel::Error {
            Some(entry.spec_line(config.log_timestamps))
        } else {
            None
        }
    }

    pub fn write(entry: &LogEntry, config: &LogConfig) -> (r: Option<String>)
        ensures
            text_of(r) == Self::spec_write(*entry, *config),
    {
        if !config.persist_errors || entry.level != LogLevel::Error {
            return None;
        }
        Some(entry.line(config.log_timestamps))
    }
}

pub open spec fn text_of(s: Option<String>) -> Option<Seq<char>> {
    match s {
        Some(s) => Some(s@),
        None => None,
    }
}

/// What a logged message is to be written as.
#[derive(Debug, PartialEq, Eq)]
pub struct LogOutput {
    /// For the serial port.
    pub serial: Option<String>,
    /// For the end of the log file; where that fails, it is tried once more and
    /// the failure is reported with [`LogManager::persist_failed`].
    pub persist: Option<String>,
}

// ---------------------------------------------------------------------------
// The manager
// ---------------------------------------------------------------------------

/// Manager of the log.
#[derive(Debug)]
pub struct LogManager {
    pub config: LogConfig,
    pub ring: LogRing,
    pub metrics: LogMetrics,
    pub min_level: LogLevel,
    pub initialised: bool,
}

impl LogManager {
    pub fn new(config: LogConfig) -> (r: Self)
        requires
            config.broken_rule() is None,
        ensures
            r.config == config,
            r.ring.entries@.len() == 0,
            r.ring.capacity == config.ring_capacity,
            r.min_level == config.min_level,
            !r.initialised,
            r.metrics == (LogMetrics {
                total_entries: 0,
                debug_count: 0,
                info_count: 0,
                warn_count: 0,
                error_count: 0,
                dropped_count: 0,
                persist_failures: 0,
            }),
    {
        let ring = LogRing::new(&config);
        let min_level = config.min_level;
        LogManager { config, ring, metrics: LogMetrics::default(), min_level, initialised: false }
    }

    pub fn default() -> (r: Self)
        ensures
            r.ring.entries@.len() == 0,
            r.ring.capacity == 1024,
            r.min_level == LogLevel::Info,
            r.config.min_level == LogLevel::Info,
            r.config.ring_capacity == 1024,
            r.config.persist_errors,
            r.config.persist_path@ == "/var/log/kernel.log"@,
            r.config.log_timestamps,
            r.config.collect_metrics,
            r.config.log_serial,
            !r.initialised,
            r.metrics == (LogMetrics {
                total_entries: 0,
                debug_count: 0,
                info_count: 0,
                warn_count: 0,
                error_count: 0,
                dropped_count: 0,
                persist_failures: 0,
            }),
    {
        Self::new(LogConfig::default())
    }

    pub fn init(&mut self)
        ensures
            *final(self) == (LogManager { initialised: true, ..*old(self) }),
    {
        self.initialised = true;
    }

    pub fn config(&self) -> (r: &LogConfig)
        ensures
            *r == self.config,
    {
        &self.config
    }

    pub fn metrics(&self) -> (r: &LogMetrics)
        ensures
            *r == self.metrics,
    {
        &self.metrics
    }

    /// Messages below this level are not logged any more.
    pub fn set_min_level(&mut self, level: LogLevel)
        ensures
            *final(self) == (LogManager { min_level: level, ..*old(self) }),
    {
        self.min_level = level;
    }

    pub fn min_level(&self) -> (r: LogLevel)
        ensures
            r == self.min_level,
    {
        self.min_level
    }

    /// What logging returns and leaves behind.
    pub open spec fn logged(
        pre: LogManager,
        post: LogManager,
        level: LogLevel,
        msg: Seq<char>,
        now: u64,
        out: LogOutput,
    ) -> bool {
        &&& post.config == pre.config
        &&& post.min_level == pre.min_level
        &&& post.initialised == pre.initialised
        &&& post.ring.capacity == pre.ring.capacity
        &&& if level.spec_rank() < pre.min_level.spec_rank() {
            &&& post.ring.entries@ == pre.ring.entries@
            &&& post.metrics == pre.metrics
            &&& out.serial is None
            &&& out.persist is None
        } else {
            &&& post.ring.entries@.len() > 0
            &&& ({
                let entry = post.ring.entries@.last();
                &&& entry.level == level
                &&& entry.ts_ms == now
                &&& entry.msg@ == msg
                &&& post.ring.entries@ == ring_after(pre.ring.entries@, entry, pre.ring.capacity)
                &&& text_of(out.serial) == SerialWriter::spec_write(entry, pre.config)
                &&& text_of(out.persist) == FsWriter::spec_write(entry, pre.config)
            })
            &&& post.metrics == (if pre.ring.entries@.len() >= pre.ring.capacity {
                LogMetrics {
                    dropped_count: pre.metrics.dropped_count.wrapping_add(1),
                    ..pre.metrics
                }
            } else {
                pre.metrics
            }).after_entry(level)
        }
    }

    /// Logs a message at the time `now`, and returns what is to be written where.
    /// A message below the least level goes nowhere.
    pub fn log(&mut self, level: LogLevel, msg: &str, now: u64) -> (r: LogResult<LogOutput>)
        ensures
            r matches Ok(out) && Self::logged(*old(self), *final(self), level, msg@, now, out),
    {
        if level.rank() < self.min_level.rank() {
            return Ok(LogOutput { serial: None, persist: None });
        }
        let entry = LogEntry { level, ts_ms: now, msg: msg.to_owned() };
        let serial = SerialWriter::write(&entry, &self.config);
        let persist = FsWriter::write(&entry, &self.config);
        match self.ring.push(entry, &mut self.metrics) {
            Ok(()) => {},
            Err(e) => {
                return Err(e);
            },
        }
        self.metrics.inc_level(level);
        Ok(LogOutput { serial, persist })
    }

    /// Counts an entry that could not be written to the log file.
    pub fn persist_failed(&mut self)
        ensures
            *final(self) == (LogManager {
                metrics: LogMetrics {
                    persist_failures: old(self).metrics.persist_failures.wrapping_add(1),
                    ..old(self).metrics
                },
                ..*old(self)
            }),
    {
        self.metrics.inc_persist_failure();
    }

    /// The ring as lines, oldest first, as many as fit into `max_bytes`.
    pub fn dump(&self, max_bytes: usize) -> (r: String)
        ensures
            r@ == dumped(
                self.ring.entries@,
                0,
                Seq::empty(),
                max_bytes as int,
                self.config.log_timestamps,
            ),
    {
        self.ring.dump(max_bytes, self.config.log_timestamps)
    }

    pub fn entry_count(&self) -> (r: usize)
        ensures
            r == self.ring.entries@.len(),
    {
        self.ring.len()
    }

    pub fn clear(&mut self)
        ensures
            final(self).ring.entries@.len() == 0,
            *final(self) == (LogManager { ring: final(self).ring, ..*old(self) }),
            final(self).ring.capacity == old(self).ring.capacity,
    {
        self.ring.clear();
    }

    pub fn stats(&self) -> (r: LogStats)
        ensures
            r == self.ring.spec_stats(),
    {
        self.ring.stats()
    }

    pub fn metrics_snapshot(&self) -> (r: LogMetricsSnapshot)
        ensures
            r.total_entries == self.metrics.total_entries,
            r.debug_count == self.metrics.debug_count,
            r.info_count == self.metrics.info_count,
            r.warn_count == self.metrics.warn_count,
            r.error_count == self.metrics.error_count,
            r.dropped_count == self.metrics.dropped_count,
            r.persist_failures == self.metrics.persist_failures,
    {
        self.metrics.snapshot()
    }

    /// Sets all counters to 0.
    pub fn reset_metrics(&mut self)
        ensures
            *final(self) == (LogManager {
                metrics: LogMetrics {
                    total_entries: 0,
                    debug_count: 0,
                    info_count: 0,
                    warn_count: 0,
                    error_count: 0,
                    dropped_count: 0,
                    persist_failures: 0,
                },
                ..*old(self)
            }),
    {
        self.metrics = LogMetrics::default();
    }
}

// ---------------------------------------------------------------------------
// The kernel-wide log, which its owner passes in
// ---------------------------------------------------------------------------

/// Messages below this level are not logged any more.
pub fn set_level(m: &mut LogManager, level: LogLevel)
    ensures
        *final(m) == (LogManager { min_level: level, ..*old(m) }),
{
    m.set_min_level(level);
}

/// Logs a message at the time `now`.
pub fn klog(m: &mut LogManager, level: LogLevel, msg: &str, now: u64) -> (out: LogOutput)
    ensures
        LogManager::logged(*old(m), *final(m), level, msg@, now, out),
{
    match m.log(level, msg, now) {
        Ok(out) => out,
        Err(_) => LogOutput { serial: None, persist: None },
    }
}

/// The ring as lines, oldest first, as many as fit into `max_bytes`.
pub fn drain_to_string(m: &LogManager, max_bytes: usize) -> (r: String)
    ensures
        r@ == dumped(
            m.ring.entries@,
            0,
            Seq::empty(),
            max_bytes as int,
            m.config.log_timestamps,
        ),
{
    m.dump(max_bytes)
}

pub fn entry_count(m: &LogManager) -> (r: usize)
    ensures
        r == m.ring.entries@.len(),
{
    m.entry_count()
}

/// Empties the ring.
pub fn clear_logs(m: &mut LogManager)
    ensures
        final(m).ring.entries@.len() == 0,
        *final(m) == (LogManager { ring: final(m).ring, ..*old(m) }),
        final(m).ring.capacity == old(m).ring.capacity,
{
    m.clear();
}

pub fn log_stats(m: &LogManager) -> (r: LogStats)
    ensures
        r == m.ring.spec_stats(),
{
    m.stats()
}

pub fn log_metrics(m: &LogManager) -> (r: LogMetricsSnapshot)
    ensures
        r.total_entries == m.metrics.total_entries,
        r.debug_count == m.metrics.debug_count,
        r.info_count == m.metrics.info_count,
        r.warn_count == m.metrics.warn_count,
        r.error_count == m.metrics.error_count,
        r.dropped_count == m.metrics.dropped_count,
        r.persist_failures == m.metrics.persist_failures,
{
    m.metrics_snapshot()
}

/// How grave a level is: a debugging message the least, an error the most.
pub open spec fn gravity(level: LogLevel) -> int {
    match level {
        LogLevel::Debug => 0,
        LogLevel::Info => 1,
        LogLevel::Warn => 2,
        LogLevel::Error => 3,
    }
}

/// A message is logged exactly where it is at least as grave as the least level. It is then
/// the latest entry, with its level and its time, behind the entries that were there; the
/// oldest of those goes where the ring is full. It is counted once in all and once under
/// its level.
pub proof fn law_message_is_the_latest_entry(
    m: &mut LogManager,
    level: LogLevel,
    msg: &str,
    now: u64,
    r: LogResult<LogOutput>,
    i: int,
)
    requires
        call_ensures(LogManager::log, (m, level, msg, now), r),
        old(m).ring.capacity > 0,
        old(m).ring.entries@.len() <= old(m).ring.capacity,
    ensures
        r is Ok,
        ({
            let was = old(m).ring.entries@;
            let after = final(m).ring.entries@;
            let kept = gravity(level) >= gravity(old(m).min_level);
            let full = was.len() == old(m).ring.capacity;
            let (a, b) = (old(m).metrics, final(m).metrics);
            &&& !kept ==> after == was && b == a && r->Ok_0.serial is None && r->Ok_0.persist is None
            &&& kept ==> {
                &&& after.len() == (if full {
                    was.len()
                } else {
                    was.len() + 1
                })
                &&& after.last().level == level && after.last().ts_ms == now && after.last().msg@ == msg@
                &&& !full && 0 <= i < was.len() ==> after[i] == was[i]
                &&& full && 0 <= i < was.len() - 1 ==> after[i] == was[i + 1]
                &&& a.total_entries < u64::MAX ==> b.total_entries == a.total_entries + 1
                &&& full && a.dropped_count < u64::MAX ==> b.dropped_count == a.dropped_count + 1
                &&& !full ==> b.dropped_count == a.dropped_count
                &&& a.debug_count < u64::MAX ==> b.debug_count == a.debug_count + (if level
                    is Debug {
                    1int
                } else {
                    0
                })
                &&& a.info_count < u64::MAX ==> b.info_count == a.info_count + (if level is Info {
                    1int
                } else {
                    0
                })
                &&& a.warn_count < u64::MAX ==> b.warn_count == a.warn_count + (if level is Warn {
                    1int
                } else {
                    0
                })
                &&& a.error_count < u64::MAX ==> b.error_count == a.error_count + (if level
                    is Error {
                    1int
                } else {
                    0
                })
                &&& r->Ok_0.serial is Some <==> old(m).config.log_serial
                &&& r->Ok_0.persist is Some <==> old(m).config.persist_errors && level is Error
                &&& r->Ok_0.serial is Some && r->Ok_0.persist is Some ==> r->Ok_0.serial->0@
                    == r->Ok_0.persist->0@
            }
            &&& final(m).min_level == old(m).min_level
            &&& final(m).config == old(m).config
        }),
{
}

/// A line of the log is the time in milliseconds where times are told, the level in
/// brackets, the message, and a line feed.
pub proof fn law_line_tells_the_entry(e: &LogEntry, timed: String, plain: String)
    requires
        call_ensures(LogEntry::line, (e, true), timed),
        call_ensures(LogEntry::line, (e, false), plain),
    ensures
        ({
            let n = e.msg@.len() as int;
            let level = plain@.take(6);
            let time = text::decimal(e.ts_ms as nat);
            &&& plain@.len() == n + 7
            &&& plain@.last() == '\n'
            &&& plain@.subrange(6, 6 + n) == e.msg@
            &&& e.level is Debug ==> level == "[DBG] "@
            &&& e.level is Info ==> level == "[INF] "@
            &&& e.level is Warn ==> level == "[WRN] "@
            &&& e.level is Error ==> level == "[ERR] "@
            &&& time.len() >= 8 ==> timed@ == seq!['['] + time + "ms]"@ + plain@
            &&& time.len() < 8 ==> timed@ == seq!['['] + Seq::new(
                (8 - time.len()) as nat,
                |i: int| ' ',
            ) + time + "ms]"@ + plain@
        }),
{
    reveal_strlit("[DBG] ");
    reveal_strlit("[INF] ");
    reveal_strlit("[WRN] ");
    reveal_strlit("[ERR] ");
    let p = e.level.spec_prefix();
    let time = text::decimal(e.ts_ms as nat);
    let n = e.msg@.len() as int;
    assert(p.len() == 6);
    assert(plain@ =~= p + e.msg@ + seq!['\n']);
    assert(plain@.take(6) =~= p);
    assert(plain@.subrange(6, 6 + n) =~= e.msg@);
    let stamp = text::padded(time, ' ', 8);
    assert(timed@ =~= seq!['['] + stamp + "ms]"@ + plain@);
    if time.len() < 8 {
        assert(timed@ =~= seq!['['] + Seq::new((8 - time.len()) as nat, |i: int| ' ') + time
            + "ms]"@ + plain@);
    }
}

/// The lines of the first entries, one behind the other.
pub open spec fn joined(entries: Seq<LogEntry>, n: int, timestamps: bool) -> Seq<char>
    decreases n,
{
    if n <= 0 {
        Seq::empty()
    } else {
        joined(entries, n - 1, timestamps) + entries[n - 1].spec_line(timestamps)
    }
}

/// A dump is the lines of the oldest entries, in their order: as many whole lines as the
/// bytes hold, and no fewer.
pub proof fn law_dump_is_the_oldest_lines(m: &LogManager, max: usize, r: String) -> (k: int)
    requires
        call_ensures(LogManager::dump, (m, max), r),
    ensures
        0 <= k <= m.ring.entries@.len(),
        r@ == joined(m.ring.entries@, k, m.config.log_timestamps),
        encode_utf8(r@).len() <= max,
        k < m.ring.entries@.len() ==> encode_utf8(r@).len() + encode_utf8(
            m.ring.entries@[k].spec_line(m.config.log_timestamps),
        ).len() > max,
{
    assert(encode_utf8(Seq::<char>::empty()).len() == 0);
    law_dump_fits(m.ring.entries@, 0, Seq::empty(), max as int, m.config.log_timestamps);
    lemma_dumped(m.ring.entries@, 0, max as int, m.config.log_timestamps)
}

proof fn lemma_dumped(entries: Seq<LogEntry>, i: int, max: int, timestamps: bool) -> (k: int)
    requires
        0 <= i <= entries.len(),
    ensures
        i <= k <= entries.len(),
        dumped(entries, i, joined(entries, i, timestamps), max, timestamps) == joined(
            entries,
            k,
            timestamps,
        ),
        k < entries.len() ==> encode_utf8(joined(entries, k, timestamps)).len() + encode_utf8(
            entries[k].spec_line(timestamps),
        ).len() > max,
    decreases entries.len() - i,
{
    if i < entries.len() && encode_utf8(joined(entries, i, timestamps)).len() + encode_utf8(
        entries[i].spec_line(timestamps),
    ).len() <= max {
        assert(joined(entries, i + 1, timestamps) == joined(entries, i, timestamps)
            + entries[i].spec_line(timestamps));
        lemma_dumped(entries, i + 1, max, timestamps)
    } else {
        i
    }
}

proof fn lemma_levels_add_up(entries: Seq<LogEntry>)
    ensures
        count_level(entries, LogLevel::Debug) + count_level(entries, LogLevel::Info) + count_level(
            entries,
            LogLevel::Warn,
        ) + count_level(entries, LogLevel::Error) == entries.len(),
    decreases entries.len(),
{
    if entries.len() > 0 {
        lemma_levels_add_up(entries.drop_last());
    }
}

/// The entries of the four levels are all the entries of the ring, and one more entry adds
/// one to those of its level and to no other.
pub proof fn law_levels_add_up(ring: &LogRing, s: LogStats, entry: LogEntry, level: LogLevel)
    requires
        call_ensures(LogRing::stats, (ring,), s),
        ring.entries@.len() <= u64::MAX,
        ring.entries@.len() <= usize::MAX,
    ensures
        s.total_entries == ring.entries@.len(),
        s.ring_usage == ring.entries@.len(),
        s.debug_count + s.info_count + s.warn_count + s.error_count == s.total_entries,
        count_level(ring.entries@.push(entry), level) == count_level(ring.entries@, level) + (
        if entry.level == level {
            1int
        } else {
            0
        }),
        s.error_count == count_level(ring.entries@, LogLevel::Error),
        s.warn_count == count_level(ring.entries@, LogLevel::Warn),
        s.info_count == count_level(ring.entries@, LogLevel::Info),
        s.debug_count == count_level(ring.entries@, LogLevel::Debug),
        count_level(Seq::empty(), level) == 0,
{
    lemma_levels_add_up(ring.entries@);
    assert(ring.entries@.push(entry).drop_last() =~= ring.entries@);
}

/// A level is read from its name in small letters, and from nothing else.
pub proof fn law_level_is_read_from_its_name(s: &str, r: Option<LogLevel>)
    requires
        call_ensures(LogLevel::from_str, (s,), r),
    ensures
        r == Some(LogLevel::Debug) <==> s@ == "debug"@,
        r == Some(LogLevel::Info) <==> s@ == "info"@,
        r == Some(LogLevel::Warn) <==> s@ == "warn"@,
        r == Some(LogLevel::Error) <==> s@ == "error"@,
{
    reveal_strlit("debug");
    reveal_strlit("info");
    reveal_strlit("warn");
    reveal_strlit("error");
    assert("debug"@.len() == 5 && "info"@.len() == 4 && "warn"@.len() == 4 && "error"@.len() == 5);
    assert("debug"@[0] == 'd' && "error"@[0] == 'e' && "info"@[0] == 'i' && "warn"@[0] == 'w');
}

/// Settings of the log pass exactly where the ring has room and errors have a place to go.
pub proof fn law_log_settings_have_room(c: &LogConfig, r: Result<(), &'static str>)
    requires
        call_ensures(LogConfig::validate, (c,), r),
    ensures
        r is Ok <==> c.ring_capacity > 0 && c.persist_path@.len() > 0,
        c.ring_capacity == 0 ==> r is Err && r->Err_0@ == "ring_capacity must be > 0"@,
{
}

/// A cleared log has no entries, and its counters stay.
pub proof fn law_cleared_log_is_empty(m: &mut LogManager, n: usize)
    requires
        call_ensures(clear_logs, (m,), ()),
        call_ensures(entry_count, (&*final(m),), n),
    ensures
        n == 0,
        final(m).metrics == old(m).metrics,
        final(m).min_level == old(m).min_level,
        final(m).ring.capacity == old(m).ring.capacity,
{
}

/// A level is told by its short name, which stands in brackets before a message; and the
/// graver of two levels has the higher rank.
pub proof fn law_level_is_told_by_its_name(
    a: LogLevel,
    b: LogLevel,
    name: &'static str,
    prefix: &'static str,
    rank_a: u8,
    rank_b: u8,
)
    requires
        call_ensures(LogLevel::as_str, (a,), name),
        call_ensures(LogLevel::prefix, (a,), prefix),
        call_ensures(LogLevel::rank, (a,), rank_a),
        call_ensures(LogLevel::rank, (b,), rank_b),
    ensures
        prefix@ == seq!['['] + name@ + seq![']', ' '],
        name@.len() == 3,
        rank_a < rank_b <==> gravity(a) < gravity(b),
{
    reveal_strlit("[DBG] ");
    reveal_strlit("[INF] ");
    reveal_strlit("[WRN] ");
    reveal_strlit("[ERR] ");
    reveal_strlit("DBG");
    reveal_strlit("INF");
    reveal_strlit("WRN");
    reveal_strlit("ERR");
    assert(prefix@ =~= seq!['['] + name@ + seq![']', ' ']);
}

} // verus!
