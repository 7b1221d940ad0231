//! Degraded mode: the kernel goes on with reduced functionality where a component
//! that is not critical has failed, and keeps a list of what is missing.
use crate::text;
use vstd::prelude::*;
use vstd::string::*;

verus! {

pub const DEFAULT_DEGRADED_LOG_PATH: &'static str = "/var/log/degraded.log";

pub const DEFAULT_MAX_COMPONENTS: usize = 32;

pub const DEFAULT_RECOVERY_CHECK_INTERVAL_MS: u64 = 5000;

pub const DEFAULT_PERSIST_FILE: &'static str = "degraded_state.json";

/// Version of the persistent state.
pub const CURRENT_VERSION: u32 = 1;

pub const TEMP_EXT: &'static str = ".tmp";

/// Configuration of degraded mode.
#[derive(Debug, PartialEq, Eq)]
pub struct DegradedConfig {
    pub max_components: usize,
    pub persist_state: bool,
    pub persist_path: Option<String>,
    pub auto_recovery: bool,
    pub recovery_check_interval_ms: u64,
    pub log_changes: bool,
    pub collect_metrics: bool,
}

impl Default for DegradedConfig {
    fn default() -> (r: Self)
        ensures
            r.max_components == DEFAULT_MAX_COMPONENTS,
            r.persist_state,
            text_of(r.persist_path) == Some(DEFAULT_DEGRADED_LOG_PATH@),
            !r.auto_recovery,
            r.recovery_check_interval_ms == DEFAULT_RECOVERY_CHECK_INTERVAL_MS,
            r.log_changes,
            r.collect_metrics,
    {
        DegradedConfig {
            max_components: DEFAULT_MAX_COMPONENTS,
            persist_state: true,
            persist_path: Some(DEFAULT_DEGRADED_LOG_PATH.to_owned()),
            auto_recovery: false,
            recovery_check_interval_ms: DEFAULT_RECOVERY_CHECK_INTERVAL_MS,
            log_changes: true,
            collect_metrics: true,
        }
    }
}

impl Clone for DegradedConfig {
    fn clone(&self) -> (r: Self)
        ensures
            r == *self,
    {
        DegradedConfig {
            max_components: self.max_components,
            persist_state: self.persist_state,
            persist_path: match &self.persist_path {
                Some(p) => Some(p.clone()),
                None => None,
            },
            auto_recovery: self.auto_recovery,
            recovery_check_interval_ms: self.recovery_check_interval_ms,
            log_changes: self.log_changes,
            collect_metrics: self.collect_metrics,
        }
    }
}

pub open spec fn text_of(s: Option<String>) -> Option<Seq<char>> {
    match s {
        Some(s) => Some(s@),
        None => None,
    }
}

impl DegradedConfig {
    /// The first rule that the configuration breaks, if any.
    pub open spec fn broken_rule(&self) -> Option<Seq<char>> {
        if self.max_components == 0 {
            Some("max_components must be > 0"@)
        } else if self.auto_recovery && self.recovery_check_interval_ms == 0 {
            Some("recovery_check_interval_ms must be > 0 when auto_recovery is enabled"@)
        } else {
            None
        }
    }

    pub fn validate(&self) -> (r: Result<(), &'static str>)
        ensures
            match r {
                Ok(_) => self.broken_rule() is None,
                Err(e) => self.broken_rule() == Some(e@),
            },
    {
        if self.max_components == 0 {
            return Err("max_components must be > 0");
        }
        if self.auto_recovery && self.recovery_check_interval_ms == 0 {
            return Err("recovery_check_interval_ms must be > 0 when auto_recovery is enabled");
        }
        Ok(())
    }

    pub fn with_metrics(self) -> (r: Self)
        ensures
            r == (DegradedConfig { collect_metrics: true, ..self }),
    {
        DegradedConfig { collect_metrics: true, ..self }
    }
}

#[derive(Debug, PartialEq, Eq)]
pub enum DegradedError {
    EmptyName,
    EmptyReason,
    MaxComponents { max: usize },
    NotFound(String),
    Persistence(String),
    Config(String),
    UnsupportedVersion { version: u32, expected: u32 },
}

pub type DegradedResult<T> = Result<T, DegradedError>;

// ---------------------------------------------------------------------------
// Components
// ---------------------------------------------------------------------------

/// A component that has failed.
#[derive(Debug, PartialEq, Eq)]
pub struct DegradedComponent {
    pub name: String,
    pub reason: String,
    pub affects: Vec<String>,
    pub timestamp_ms: u64,
    pub recovered: bool,
    pub recovered_at_ms: u64,
}

/// What a component says.
#[verifier::ext_equal]
pub struct Failure {
    pub name: Seq<char>,
    pub reason: Seq<char>,
    pub affects: Seq<Seq<char>>,
    pub timestamp_ms: u64,
    pub recovered: bool,
    pub recovered_at_ms: u64,
}

/// The texts of several strings.
pub open spec fn texts(s: Seq<String>) -> Seq<Seq<char>> {
    Seq::new(s.len(), |i: int| s[i]@)
}

/// The texts of several string slices.
pub open spec fn str_texts(s: Seq<&str>) -> Seq<Seq<char>> {
    Seq::new(s.len(), |i: int| s[i]@)
}

impl View for DegradedComponent {
    type V = Failure;

    open spec fn view(&self) -> Failure {
        Failure {
            name: self.name@,
            reason: self.reason@,
            affects: texts(self.affects@),
            timestamp_ms: self.timestamp_ms,
            recovered: self.recovered,
            recovered_at_ms: self.recovered_at_ms,
        }
    }
}

impl Clone for DegradedComponent {
    fn clone(&self) -> (r: Self)
        ensures
            r@ == self@,
    {
        let mut affects: Vec<String> = Vec::new();
        let mut i: usize = 0;
        while i < self.affects.len()
            invariant
                i <= self.affects@.len(),
                affects@.len() == i,
                forall|j: int| 0 <= j < i ==> (#[trigger] affects@[j])@ == self.affects@[j]@,
            decreases self.affects@.len() - i,
        {
            affects.push(self.affects[i].clone());
            i += 1;
        }
        assert(texts(affects@) =~= texts(self.affects@));
        DegradedComponent {
            name: self.name.clone(),
            reason: self.reason.clone(),
            affects,
            timestamp_ms: self.timestamp_ms,
            recovered: self.recovered,
            recovered_at_ms: self.recovered_at_ms,
        }
    }
}

impl Failure {
    /// A component that fails now.
    pub open spec fn fresh(
        name: Seq<char>,
        reason: Seq<char>,
        affects: Seq<Seq<char>>,
        now: u64,
    ) -> Failure {
        Failure {
            name,
            reason,
            affects,
            timestamp_ms: now,
            recovered: false,
            recovered_at_ms: 0,
        }
    }

    /// In words: name and reason, what is affected, and since or until when.
    pub open spec fn described(self) -> Seq<char> {
        self.name + ": "@ + self.reason + (if self.affects.len() == 0 {
            Seq::empty()
        } else {
            " (affects: "@ + joined(self.affects) + ")"@
        }) + if self.recovered {
            " [RECOVERED at "@ + text::decimal(self.recovered_at_ms as nat) + "ms]"@
        } else {
            " ["@ + text::decimal(self.timestamp_ms as nat) + "ms]"@
        }
    }
}

/// The texts with commas between them.
pub open spec fn joined(s: Seq<Seq<char>>) -> Seq<char>
    decreases s.len(),
{
    if s.len() == 0 {
        Seq::empty()
    } else if s.len() == 1 {
        s[0]
    } else {
        joined(s.drop_last()) + ", "@ + s.last()
    }
}

/// Appends one more text to a list.
fn push_joined(out: &mut String, done: Ghost<Seq<Seq<char>>>, item: &str)
    requires
        old(out)@ == joined(done@),
        done@.len() > 0,
    ensures
        final(out)@ == joined(done@.push(item@)),
{
    out.append(", ");
    out.append(item);
    assert(done@.push(item@).drop_last() =~= done@);
}

fn join(items: &Vec<String>) -> (r: String)
    ensures
        r@ == joined(texts(items@)),
{
    if items.len() == 0 {
        return String::new();
    }
    let mut out = items[0].clone();
    let mut i: usize = 1;
    let ghost all = texts(items@);
    assert(all.take(1).len() == 1 && all.take(1)[0] == all[0]);
    while i < items.len()
        invariant
            1 <= i <= items@.len(),
            all == texts(items@),
            out@ == joined(all.take(i as int)),
        decreases items@.len() - i,
    {
        push_joined(&mut out, Ghost(all.take(i as int)), items[i].as_str());
        assert(all.take(i + 1) =~= all.take(i as int).push(all[i as int]));
        i += 1;
    }
    assert(all.take(i as int) =~= all);
    out
}

/// Whether both hold the same texts.
fn same_texts(a: &Vec<String>, b: &Vec<String>) -> (r: bool)
    ensures
        r == (texts(a@) == texts(b@)),
{
    if a.len() != b.len() {
        assert(texts(a@).len() != texts(b@).len());
        return false;
    }
    let mut i: usize = 0;
    while i < a.len()
        invariant
            a@.len() == b@.len(),
            i <= a@.len(),
            forall|j: int| 0 <= j < i ==> a@[j]@ == b@[j]@,
        decreases a@.len() - i,
    {
        if !text::same(a[i].as_str(), b[i].as_str()) {
            assert(texts(a@)[i as int] != texts(b@)[i as int]);
            return false;
        }
        i += 1;
    }
    assert(texts(a@) =~= texts(b@));
    true
}

impl DegradedComponent {
    /// A component that fails now. It has a name and a reason.
    pub fn new(
        name: &str,
        reason: &str,
        affects: &[&str],
        timestamp_ms: u64,
    ) -> (r: DegradedResult<Self>)
        ensures
            match r {
                Ok(c) => name@.len() > 0 && reason@.len() > 0 && c@ == Failure::fresh(
                    name@,
                    reason@,
                    str_texts(affects@),
                    timestamp_ms,
                ),
                Err(e) => if name@.len() == 0 {
                    e == DegradedError::EmptyName
                } else {
                    reason@.len() == 0 && e == DegradedError::EmptyReason
                },
            },
    {
        if name.unicode_len() == 0 {
            return Err(DegradedError::EmptyName);
        }
        if reason.unicode_len() == 0 {
            return Err(DegradedError::EmptyReason);
        }
        let mut list: Vec<String> = Vec::new();
        let mut i: usize = 0;
        while i < affects.len()
            invariant
                i <= affects@.len(),
                list@.len() == i,
                forall|j: int| 0 <= j < i ==> (#[trigger] list@[j])@ == affects@[j]@,
            decreases affects@.len() - i,
        {
            list.push(affects[i].to_owned());
            i += 1;
        }
        assert(texts(list@) =~= str_texts(affects@));
        Ok(
            DegradedComponent {
                name: name.to_owned(),
                reason: reason.to_owned(),
                affects: list,
                timestamp_ms,
                recovered: false,
                recovered_at_ms: 0,
            },
        )
    }

    pub fn mark_recovered(&mut self, timestamp_ms: u64)
        ensures
            *final(self) == (DegradedComponent {
                recovered: true,
                recovered_at_ms: timestamp_ms,
                ..*old(self)
            }),
    {
        self.recovered = true;
        self.recovered_at_ms = timestamp_ms;
    }

    pub fn is_degraded(&self) -> (r: bool)
        ensures
            r == !self.recovered,
    {
        !self.recovered
    }

    /// The component in words.
    pub fn describe(&self) -> (r: String)
        ensures
            r@ == self@.described(),
    {
        let mut out = self.name.clone();
        out.append(": ");
        out.append(self.reason.as_str());
        if self.affects.len() > 0 {
            out.append(" (affects: ");
            let list = join(&self.affects);
            out.append(list.as_str());
            out.append(")");
        }
        let ghost mid = out@;
        assert(mid =~= self@.name + ": "@ + self@.reason + (if self@.affects.len() == 0 {
            Seq::empty()
        } else {
            " (affects: "@ + joined(self@.affects) + ")"@
        }));
        if self.recovered {
            out.append(" [RECOVERED at ");
            text::push_decimal(&mut out, self.recovered_at_ms);
            out.append("ms]");
            assert(out@ =~= mid + (" [RECOVERED at "@ + text::decimal(self.recovered_at_ms as nat)
                + "ms]"@));
        } else {
            out.append(" [");
            text::push_decimal(&mut out, self.timestamp_ms);
            out.append("ms]");
            assert(out@ =~= mid + (" ["@ + text::decimal(self.timestamp_ms as nat) + "ms]"@));
        }
        out
    }
}

// ---------------------------------------------------------------------------
// Events
// ---------------------------------------------------------------------------

/// A change of the list, for those who listen.
#[derive(Debug, PartialEq, Eq)]
pub enum DegradedEvent {
    ComponentAdded(DegradedComponent),
    ComponentUpdated(DegradedComponent),
    ComponentRecovered(DegradedComponent),
    ComponentCleared(String),
    AllCleared,
}

/// What an event says.
pub enum Notice {
    Added(Failure),
    Updated(Failure),
    Recovered(Failure),
    Cleared(Seq<char>),
    AllCleared,
}

impl View for DegradedEvent {
    type V = Notice;

    open spec fn view(&self) -> Notice {
        match *self {
            DegradedEvent::ComponentAdded(c) => Notice::Added(c@),
            DegradedEvent::ComponentUpdated(c) => Notice::Updated(c@),
            DegradedEvent::ComponentRecovered(c) => Notice::Recovered(c@),
            DegradedEvent::ComponentCleared(name) => Notice::Cleared(name@),
            DegradedEvent::AllCleared => Notice::AllCleared,
        }
    }
}

/// What several events say.
pub open spec fn notices(events: Seq<DegradedEvent>) -> Seq<Notice> {
    Seq::new(events.len(), |i: int| events[i]@)
}

/// What a change leads to: the events in their order, and whether the state has to
/// be saved. Where saving fails, [`DegradedManager::persistence_failed`] is told.
#[derive(Debug, PartialEq, Eq)]
pub struct Change {
    pub events: Vec<DegradedEvent>,
    pub save: bool,
}

/// Counters of degraded mode.
#[derive(Debug, Clone, Copy, PartialEq, Eq)]
pub struct DegradedMetrics {
    pub marks: u64,
    pub recoveries: u64,
    pub clears: u64,
    pub clears_all: u64,
    pub persistence_failures: u64,
    pub events_emitted: u64,
}

impl Default for DegradedMetrics {
    fn default() -> (r: Self)
        ensures
            r == (DegradedMetrics {
                marks: 0,
                recoveries: 0,
                clears: 0,
                clears_all: 0,
                persistence_failures: 0,
                events_emitted: 0,
            }),
    {
        DegradedMetrics {
            marks: 0,
            recoveries: 0,
            clears: 0,
            clears_all: 0,
            persistence_failures: 0,
            events_emitted: 0,
        }
    }
}

impl DegradedMetrics {
    pub fn inc_marks(&mut self)
        ensures
            *final(self) == (DegradedMetrics {
                marks: old(self).marks.wrapping_add(1),
                ..*old(self)
            }),
    {
        self.marks = self.marks.wrapping_add(1);
    }

    pub fn inc_recoveries(&mut self)
        ensures
            *final(self) == (DegradedMetrics {
                recoveries: old(self).recoveries.wrapping_add(1),
                ..*old(self)
            }),
    {
        self.recoveries = self.recoveries.wrapping_add(1);
    }

    pub fn inc_clears(&mut self)
        ensures
            *final(self) == (DegradedMetrics {
                clears: old(self).clears.wrapping_add(1),
                ..*old(self)
            }),
    {
        self.clears = self.clears.wrapping_add(1);
    }

    pub fn inc_clears_all(&mut self)
        ensures
            *final(self) == (DegradedMetrics {
                clears_all: old(self).clears_all.wrapping_add(1),
                ..*old(self)
            }),
    {
        self.clears_all = self.clears_all.wrapping_add(1);
    }

    pub fn inc_persistence_failure(&mut self)
        ensures
            *final(self) == (DegradedMetrics {
                persistence_failures: old(self).persistence_failures.wrapping_add(1),
                ..*old(self)
            }),
    {
        self.persistence_failures = self.persistence_failures.wrapping_add(1);
    }

    pub fn inc_events(&mut self)
        ensures
            *final(self) == (DegradedMetrics {
                events_emitted: old(self).events_emitted.wrapping_add(1),
                ..*old(self)
            }),
    {
        self.events_emitted = self.events_emitted.wrapping_add(1);
    }

    /// A copy of the counters.
    pub fn snapshot(&self) -> (r: DegradedMetricsSnapshot)
        ensures
            r == (DegradedMetricsSnapshot {
                marks: self.marks,
                recoveries: self.recoveries,
                clears: self.clears,
                clears_all: self.clears_all,
                persistence_failures: self.persistence_failures,
                events_emitted: self.events_emitted,
            }),
    {
        DegradedMetricsSnapshot {
            marks: self.marks,
            recoveries: self.recoveries,
            clears: self.clears,
            clears_all: self.clears_all,
            persistence_failures: self.persistence_failures,
            events_emitted: self.events_emitted,
        }
    }
}

/// A copy of [`DegradedMetrics`] at one moment.
#[derive(Debug, Clone, Copy, PartialEq, Eq)]
pub struct DegradedMetricsSnapshot {
    pub marks: u64,
    pub recoveries: u64,
    pub clears: u64,
    pub clears_all: u64,
    pub persistence_failures: u64,
    pub events_emitted: u64,
}

// ---------------------------------------------------------------------------
// The list of failures
// ---------------------------------------------------------------------------

/// The first failure from `i` on with that name.
pub open spec fn find_from(list: Seq<Failure>, name: Seq<char>, i: int) -> Option<int>
    decreases list.len() - i,
{
    if i >= list.len() {
        None
    } else if list[i].name == name {
        Some(i)
    } else {
        find_from(list, name, i + 1)
    }
}

/// The list without the failures of that name.
pub open spec fn without(list: Seq<Failure>, name: Seq<char>) -> Seq<Failure>
    decreases list.len(),
{
    if list.len() == 0 {
        Seq::empty()
    } else if list.last().name == name {
        without(list.drop_last(), name)
    } else {
        without(list.drop_last(), name).push(list.last())
    }
}

/// The failures that have not recovered.
pub open spec fn unrecovered(list: Seq<Failure>) -> Seq<Failure>
    decreases list.len(),
{
    if list.len() == 0 {
        Seq::empty()
    } else if list.last().recovered {
        unrecovered(list.drop_last())
    } else {
        unrecovered(list.drop_last()).push(list.last())
    }
}

/// A failure of that name is in the list and has not recovered.
pub open spec fn degraded_for(list: Seq<Failure>, name: Seq<char>) -> bool {
    exists|i: int| 0 <= i < list.len() && (#[trigger] list[i]).name == name && !list[i].recovered
}

/// The names.
pub open spec fn names_of(list: Seq<Failure>) -> Seq<Seq<char>> {
    Seq::new(list.len(), |i: int| list[i].name)
}

/// No name is there twice.
pub open spec fn names_unique(list: Seq<Failure>) -> bool {
    forall|i: int, j: int|
        0 <= i < j < list.len() ==> (#[trigger] list[i]).name != (#[trigger] list[j]).name
}

/// The list after a failure: one of the same name is replaced, else it is added,
/// for which the oldest goes where the list is full.
pub open spec fn list_after(list: Seq<Failure>, c: Failure, max: usize) -> Seq<Failure> {
    match find_from(list, c.name, 0) {
        Some(i) => if differs(list[i], c) {
            list.update(i, c)
        } else {
            list
        },
        None => if list.len() >= max && list.len() > 0 {
            list.drop_first().push(c)
        } else {
            list.push(c)
        },
    }
}

/// The new failure says something else than the one in the list.
pub open spec fn differs(existing: Failure, c: Failure) -> bool {
    existing.reason != c.reason || existing.affects != c.affects || existing.recovered
        != c.recovered
}

/// The events of a failure.
pub open spec fn notices_of(list: Seq<Failure>, c: Failure, max: usize) -> Seq<Notice> {
    match find_from(list, c.name, 0) {
        Some(i) => if differs(list[i], c) {
            seq![Notice::Updated(c)]
        } else {
            Seq::empty()
        },
        None => if list.len() >= max && list.len() > 0 {
            seq![Notice::Cleared(list[0].name), Notice::Added(c)]
        } else {
            seq![Notice::Added(c)]
        },
    }
}

/// The counters after a failure.
pub open spec fn counted_mark(
    m: DegradedMetrics,
    list: Seq<Failure>,
    c: Failure,
    max: usize,
) -> DegradedMetrics {
    match find_from(list, c.name, 0) {
        Some(i) => if differs(list[i], c) {
            DegradedMetrics {
                marks: m.marks.wrapping_add(1),
                events_emitted: m.events_emitted.wrapping_add(1),
                ..m
            }
        } else {
            m
        },
        None => if list.len() >= max && list.len() > 0 {
            DegradedMetrics {
                clears: m.clears.wrapping_add(1),
                marks: m.marks.wrapping_add(1),
                events_emitted: m.events_emitted.wrapping_add(1).wrapping_add(1),
                ..m
            }
        } else {
            DegradedMetrics {
                marks: m.marks.wrapping_add(1),
                events_emitted: m.events_emitted.wrapping_add(1),
                ..m
            }
        },
    }
}

proof fn lemma_find(list: Seq<Failure>, name: Seq<char>, i: int)
    requires
        0 <= i,
    ensures
        match find_from(list, name, i) {
            Some(k) => i <= k < list.len() && list[k].name == name && forall|j: int|
                i <= j < k ==> (#[trigger] list[j]).name != name,
            None => forall|j: int| i <= j < list.len() ==> (#[trigger] list[j]).name != name,
        },
    decreases list.len() - i,
{
    if i < list.len() && list[i].name != name {
        lemma_find(list, name, i + 1);
    }
}

/// The contents of a vector of components.
pub open spec fn failures(v: Seq<DegradedComponent>) -> Seq<Failure> {
    Seq::new(v.len(), |i: int| v[i]@)
}

// ---------------------------------------------------------------------------
// The manager
// ---------------------------------------------------------------------------

/// Manager of degraded mode.
#[derive(Debug)]
pub struct DegradedManager {
    pub components: Vec<DegradedComponent>,
    pub config: DegradedConfig,
    pub persist_path: Option<String>,
    pub metrics: DegradedMetrics,
}

impl DegradedManager {
    /// The failures, oldest first.
    pub open spec fn list(&self) -> Seq<Failure> {
        failures(self.components@)
    }

    /// A change is saved.
    pub open spec fn saves(&self) -> bool {
        self.config.persist_state && self.persist_path is Some
    }

    /// All but the list and the counters are the same.
    pub open spec fn same_settings(&self, o: DegradedManager) -> bool {
        &&& self.config == o.config
        &&& self.persist_path == o.persist_path
    }

    /// A manager with these settings that has done nothing yet, and knows the components
    /// that were loaded where state is kept.
    pub open spec fn starts_with(
        self,
        config: DegradedConfig,
        loaded: Option<Vec<DegradedComponent>>,
    ) -> bool {
        &&& self.config == config
        &&& self.persist_path == (if config.persist_state {
            config.persist_path
        } else {
            None
        })
        &&& self.components@ == (if loaded is Some && self.persist_path is Some {
            (loaded->0)@
        } else {
            Seq::empty()
        })
        &&& self.metrics == (DegradedMetrics {
            marks: 0,
            recoveries: 0,
            clears: 0,
            clears_all: 0,
            persistence_failures: 0,
            events_emitted: 0,
        })
    }

    /// A manager with a valid configuration. `loaded` is what was saved before, if
    /// that could be read; it counts only where the state is persistent.
    pub fn new(config: DegradedConfig, loaded: Option<Vec<DegradedComponent>>) -> (r:
        DegradedResult<Self>)
        ensures
            match r {
                Ok(m) => config.broken_rule() is None && m.starts_with(config, loaded),
                Err(e) => e matches DegradedError::Config(s) && config.broken_rule() == Some(s@),
            },
    {
        match config.validate() {
            Ok(()) => {},
            Err(e) => {
                return Err(DegradedError::Config(e.to_owned()));
            },
        }
        let persist_path = if config.persist_state {
            match &config.persist_path {
                Some(p) => Some(p.clone()),
                None => None,
            }
        } else {
            None
        };
        let components = match loaded {
            Some(list) => if persist_path.is_some() {
                list
            } else {
                Vec::new()
            },
            None => Vec::new(),
        };
        Ok(DegradedManager { components, config, persist_path, metrics: DegradedMetrics::default() })
    }

    pub fn default() -> (r: Self)
        ensures
            r.components@.len() == 0,
            r.config.max_components == DEFAULT_MAX_COMPONENTS,
            r.config.persist_state,
            text_of(r.config.persist_path) == Some(DEFAULT_DEGRADED_LOG_PATH@),
            r.persist_path == r.config.persist_path,
            !r.config.auto_recovery,
            r.config.recovery_check_interval_ms == DEFAULT_RECOVERY_CHECK_INTERVAL_MS,
            r.config.log_changes,
            r.config.collect_metrics,
            r.saves(),
            r.metrics == (DegradedMetrics {
                marks: 0,
                recoveries: 0,
                clears: 0,
                clears_all: 0,
                persistence_failures: 0,
                events_emitted: 0,
            }),
    {
        let config = DegradedConfig::default();
        let persist_path = match &config.persist_path {
            Some(p) => Some(p.clone()),
            None => None,
        };
        DegradedManager {
            components: Vec::new(),
            config,
            persist_path,
            metrics: DegradedMetrics::default(),
        }
    }

    fn notify(&mut self, events: &mut Vec<DegradedEvent>, event: DegradedEvent)
        ensures
            final(events)@ == old(events)@.push(event),
            *final(self) == (DegradedManager {
                metrics: DegradedMetrics {
                    events_emitted: old(self).metrics.events_emitted.wrapping_add(1),
                    ..old(self).metrics
                },
                ..*old(self)
            }),
    {
        self.metrics.inc_events();
        events.push(event);
    }

    fn needs_save(&self) -> (r: bool)
        ensures
            r == self.saves(),
    {
        self.config.persist_state && self.persist_path.is_some()
    }

    /// The index of the first component with that name.
    fn position(&self, name: &str) -> (r: Option<usize>)
        ensures
            match r {
                Some(i) => find_from(self.list(), name@, 0) == Some(i as int) && i
                    < self.components@.len(),
                None => find_from(self.list(), name@, 0) is None,
            },
    {
        let mut i: usize = 0;
        while i < self.components.len()
            invariant
                i <= self.components@.len(),
                find_from(self.list(), name@, 0) == find_from(self.list(), name@, i as int),
            decreases self.components@.len() - i,
        {
            if text::same(self.components[i].name.as_str(), name) {
                return Some(i);
            }
            i += 1;
        }
        None
    }

    /// What marking a component leads to; one without a name or a reason is
    /// ignored.
    pub open spec fn marked(
        pre: DegradedManager,
        post: DegradedManager,
        name: Seq<char>,
        reason: Seq<char>,
        affects: Seq<Seq<char>>,
        now: u64,
        change: Change,
    ) -> bool {
        let c = Failure::fresh(name, reason, affects, now);
        let max = pre.config.max_components;
        &&& post.same_settings(pre)
        &&& if name.len() == 0 || reason.len() == 0 {
            &&& post.list() == pre.list()
            &&& post.metrics == pre.metrics
            &&& change.events@.len() == 0
            &&& !change.save
        } else {
            &&& post.list() == list_after(pre.list(), c, max)
            &&& post.metrics == counted_mark(pre.metrics, pre.list(), c, max)
            &&& notices(change.events@) == notices_of(pre.list(), c, max)
            &&& change.save == (pre.saves() && change.events@.len() > 0)
        }
    }

    /// Marks a component as failed at the time `now`.
    pub fn mark_degraded(&mut self, name: &str, reason: &str, affects: &[&str], now: u64) -> (r:
        Change)
        ensures
            Self::marked(*old(self), *final(self), name@, reason@, str_texts(affects@), now, r),
    {
        let mut events: Vec<DegradedEvent> = Vec::new();
        let component = match DegradedComponent::new(name, reason, affects, now) {
            Ok(c) => c,
            Err(_) => {
                return Change { events, save: false };
            },
        };
        let ghost list = self.list();
        let ghost c = component@;
        proof {
            lemma_find(list, c.name, 0);
        }
        match self.position(name) {
            Some(i) => {
                let existing = &self.components[i];
                assert(list[i as int] == existing@);
                if !text::same(existing.reason.as_str(), reason) || !same_texts(
                    &existing.affects,
                    &component.affects,
                ) || existing.recovered {
                    self.components.set(i, component.clone());
                    assert(self.list() =~= list.update(i as int, c));
                    self.metrics.inc_marks();
                    self.notify(&mut events, DegradedEvent::ComponentUpdated(component));
                    assert(notices(events@) =~= seq![Notice::Updated(c)]);
                } else {
                    assert(notices(events@) =~= Seq::empty());
                }
            },
            None => {
                if self.components.len() >= self.config.max_components && self.components.len()
                    > 0 {
                    let oldest = self.components.remove(0);
                    assert(oldest@ == list[0]);
                    assert(self.list() =~= list.drop_first());
                    self.metrics.inc_clears();
                    self.notify(&mut events, DegradedEvent::ComponentCleared(oldest.name));
                }
                let ghost before = self.list();
                let ghost earlier = events@;
                self.components.push(component.clone());
                assert(self.list() =~= before.push(c));
                self.metrics.inc_marks();
                self.notify(&mut events, DegradedEvent::ComponentAdded(component));
                assert(notices(events@) =~= notices(earlier).push(Notice::Added(c)));
                assert(notices(events@) =~= notices_of(list, c, self.config.max_components));
            },
        }
        let save: bool = events.len() > 0 && self.needs_save();
        Change { events, save }
    }

    /// What recovery leads to: the first component of that name, if it had not
    /// recovered before, counts as recovered.
    pub open spec fn recovered(
        pre: DegradedManager,
        post: DegradedManager,
        name: Seq<char>,
        now: u64,
        r: bool,
        change: Change,
    ) -> bool {
        let at = find_from(pre.list(), name, 0);
        &&& post.same_settings(pre)
        &&& r == (at is Some && !pre.list()[at->0].recovered)
        &&& if r {
            let c = Failure { recovered: true, recovered_at_ms: now, ..pre.list()[at->0] };
            &&& post.list() == pre.list().update(at->0, c)
            &&& post.metrics == (DegradedMetrics {
                recoveries: pre.metrics.recoveries.wrapping_add(1),
                events_emitted: pre.metrics.events_emitted.wrapping_add(1),
                ..pre.metrics
            })
            &&& notices(change.events@) == seq![Notice::Recovered(c)]
            &&& change.save == pre.saves()
        } else {
            &&& post.list() == pre.list()
            &&& post.metrics == pre.metrics
            &&& change.events@.len() == 0
            &&& !change.save
        }
    }

    /// Marks a component as recovered at the time `now`.
    pub fn mark_recovered(&mut self, name: &str, now: u64) -> (r: (bool, Change))
        ensures
            Self::recovered(*old(self), *final(self), name@, now, r.0, r.1),
    {
        let mut events: Vec<DegradedEvent> = Vec::new();
        let ghost list = self.list();
        match self.position(name) {
            Some(i) => {
                assert(list[i as int] == self.components@[i as int]@);
                if !self.components[i].recovered {
                    let mut c = self.components[i].clone();
                    c.mark_recovered(now);
                    let ghost seen = c@;
                    assert(seen == (Failure {
                        recovered: true,
                        recovered_at_ms: now,
                        ..list[i as int]
                    }));
                    self.components.set(i, c.clone());
                    assert(self.list() =~= list.update(i as int, seen));
                    self.metrics.inc_recoveries();
                    self.notify(&mut events, DegradedEvent::ComponentRecovered(c));
                    assert(notices(events@) =~= seq![Notice::Recovered(seen)]);
                    let save: bool = self.needs_save();
                    return (true, Change { events, save });
                }
            },
            None => {},
        }
        (false, Change { events, save: false })
    }

    /// What clearing a component leads to: all of that name leave the list.
    pub open spec fn cleared(
        pre: DegradedManager,
        post: DegradedManager,
        name: Seq<char>,
        r: bool,
        change: Change,
    ) -> bool {
        &&& post.same_settings(pre)
        &&& post.list() == without(pre.list(), name)
        &&& r == (without(pre.list(), name).len() != pre.list().len())
        &&& if r {
            &&& post.metrics == (DegradedMetrics {
                clears: pre.metrics.clears.wrapping_add(1),
                events_emitted: pre.metrics.events_emitted.wrapping_add(1),
                ..pre.metrics
            })
            &&& notices(change.events@) == seq![Notice::Cleared(name)]
            &&& change.save == pre.saves()
        } else {
            &&& post.metrics == pre.metrics
            &&& change.events@.len() == 0
            &&& !change.save
        }
    }

    /// Takes a component off the list.
    pub fn clear_component(&mut self, name: &str) -> (r: (bool, Change))
        ensures
            Self::cleared(*old(self), *final(self), name@, r.0, r.1),
    {
        let mut events: Vec<DegradedEvent> = Vec::new();
        let ghost list = self.list();
        let before: usize = self.components.len();
        let mut kept: Vec<DegradedComponent> = Vec::new();
        let mut i: usize = 0;
        proof {
            assert(list.take(0) =~= Seq::<Failure>::empty());
            assert(failures(kept@) =~= Seq::<Failure>::empty());
        }
        while i < self.components.len()
            invariant
                i <= self.components@.len(),
                list == self.list(),
                *self == *old(self),
                failures(kept@) == without(list.take(i as int), name@),
            decreases self.components@.len() - i,
        {
            proof {
                assert(list.take(i + 1).drop_last() =~= list.take(i as int));
                assert(list.take(i + 1).last() == self.components@[i as int]@);
            }
            if !text::same(self.components[i].name.as_str(), name) {
                let ghost earlier = failures(kept@);
                let c = self.components[i].clone();
                let ghost seen = c@;
                kept.push(c);
                assert(failures(kept@) =~= earlier.push(seen));
            }
            i += 1;
        }
        assert(list.take(i as int) =~= list);
        self.components = kept;
        let removed: bool = before != self.components.len();
        assert(self.list().len() == self.components@.len());
        let mut save: bool = false;
        if removed {
            self.metrics.inc_clears();
            self.notify(&mut events, DegradedEvent::ComponentCleared(name.to_owned()));
            assert(notices(events@) =~= seq![Notice::Cleared(name@)]);
            save = self.needs_save();
        }
        (removed, Change { events, save })
    }

    /// What clearing everything leads to; an empty list stays as it is.
    pub open spec fn all_cleared(
        pre: DegradedManager,
        post: DegradedManager,
        change: Change,
    ) -> bool {
        &&& post.same_settings(pre)
        &&& post.list().len() == 0
        &&& if pre.list().len() > 0 {
            &&& post.metrics == (DegradedMetrics {
                clears_all: pre.metrics.clears_all.wrapping_add(1),
                events_emitted: pre.metrics.events_emitted.wrapping_add(1),
                ..pre.metrics
            })
            &&& notices(change.events@) == seq![Notice::AllCleared]
            &&& change.save == pre.saves()
        } else {
            &&& post.metrics == pre.metrics
            &&& change.events@.len() == 0
            &&& !change.save
        }
    }

    /// Empties the list.
    pub fn clear_all(&mut self) -> (r: Change)
        ensures
            Self::all_cleared(*old(self), *final(self), r),
    {
        let mut events: Vec<DegradedEvent> = Vec::new();
        let mut save: bool = false;
        if self.components.len() > 0 {
            self.components.clear();
            self.metrics.inc_clears_all();
            self.notify(&mut events, DegradedEvent::AllCleared);
            assert(notices(events@) =~= seq![Notice::AllCleared]);
            save = self.needs_save();
        }
        Change { events, save }
    }

    /// Counts a state that could not be saved.
    pub fn persistence_failed(&mut self)
        ensures
            *final(self) == (DegradedManager {
                metrics: DegradedMetrics {
                    persistence_failures: old(self).metrics.persistence_failures.wrapping_add(1),
                    ..old(self).metrics
                },
                ..*old(self)
            }),
    {
        self.metrics.inc_persistence_failure();
    }

    pub fn is_degraded(&self) -> (r: bool)
        ensures
            r == (unrecovered(self.list()).len() > 0),
    {
        self.degraded_count() > 0
    }

    pub fn degraded_count(&self) -> (r: usize)
        ensures
            r == unrecovered(self.list()).len(),
    {
        let mut n: usize = 0;
        let mut i: usize = 0;
        let ghost list = self.list();
        assert(list.take(0) =~= Seq::<Failure>::empty());
        while i < self.components.len()
            invariant
                i <= self.components@.len(),
                list == self.list(),
                n <= i,
                n == unrecovered(list.take(i as int)).len(),
            decreases self.components@.len() - i,
        {
            proof {
                assert(list.take(i + 1).drop_last() =~= list.take(i as int));
                assert(list.take(i + 1).last() == self.components@[i as int]@);
            }
            if self.components[i].is_degraded() {
                n += 1;
            }
            i += 1;
        }
        assert(list.take(i as int) =~= list);
        n
    }

    /// A copy of all components.
    pub fn components(&self) -> (r: Vec<DegradedComponent>)
        ensures
            failures(r@) == self.list(),
    {
        let mut out: Vec<DegradedComponent> = Vec::new();
        let mut i: usize = 0;
        while i < self.components.len()
            invariant
                i <= self.components@.len(),
                out@.len() == i,
                forall|j: int| 0 <= j < i ==> (#[trigger] out@[j])@ == self.components@[j]@,
            decreases self.components@.len() - i,
        {
            out.push(self.components[i].clone());
            i += 1;
        }
        assert(failures(out@) =~= self.list());
        out
    }

    /// A copy of the components that have not recovered.
    pub fn degraded_components(&self) -> (r: Vec<DegradedComponent>)
        ensures
            failures(r@) == unrecovered(self.list()),
    {
        let mut out: Vec<DegradedComponent> = Vec::new();
        let mut i: usize = 0;
        let ghost list = self.list();
        assert(list.take(0) =~= Seq::<Failure>::empty());
        assert(failures(out@) =~= Seq::<Failure>::empty());
        while i < self.components.len()
            invariant
                i <= self.components@.len(),
                list == self.list(),
                failures(out@) == unrecovered(list.take(i as int)),
            decreases self.components@.len() - i,
        {
            proof {
                assert(list.take(i + 1).drop_last() =~= list.take(i as int));
                assert(list.take(i + 1).last() == self.components@[i as int]@);
            }
            if self.components[i].is_degraded() {
                let ghost earlier = failures(out@);
                let c = self.components[i].clone();
                let ghost seen = c@;
                out.push(c);
                assert(failures(out@) =~= earlier.push(seen));
            }
            i += 1;
        }
        assert(list.take(i as int) =~= list);
        out
    }

    pub fn is_degraded_for(&self, component: &str) -> (r: bool)
        ensures
            r == degraded_for(self.list(), component@),
    {
        match self.degraded_position(component) {
            Some(_) => true,
            None => false,
        }
    }

    /// The index of the first component of that name that has not recovered.
    fn degraded_position(&self, component: &str) -> (r: Option<usize>)
        ensures
            match r {
                Some(i) => i < self.components@.len() && first_degraded(
                    self.list(),
                    component@,
                    i as int,
                ) && degraded_for(self.list(), component@),
                None => !degraded_for(self.list(), component@),
            },
    {
        let mut i: usize = 0;
        while i < self.components.len()
            invariant
                i <= self.components@.len(),
                forall|j: int|
                    0 <= j < i ==> !((#[trigger] self.list()[j]).name == component@
                        && !self.list()[j].recovered),
            decreases self.components@.len() - i,
        {
            assert(self.list()[i as int] == self.components@[i as int]@);
            if text::same(self.components[i].name.as_str(), component)
                && self.components[i].is_degraded() {
                return Some(i);
            }
            i += 1;
        }
        None
    }

    /// Calls `f` on the first component of that name that has not recovered.
    pub fn with_degraded<R, F: FnOnce(&DegradedComponent) -> R>(&self, component: &str, f: F) -> (r:
        Option<R>)
        requires
            forall|i: int|
                0 <= i < self.components@.len() && first_degraded(self.list(), component@, i)
                    ==> call_requires(f, (&#[trigger] self.components@[i],)),
        ensures
            match r {
                Some(v) => exists|i: int|
                    0 <= i < self.components@.len() && first_degraded(self.list(), component@, i)
                        && call_ensures(f, (&#[trigger] self.components@[i],), v),
                None => !degraded_for(self.list(), component@),
            },
    {
        match self.degraded_position(component) {
            Some(i) => {
                assert(call_requires(f, (&self.components@[i as int],)));
                Some(f(&self.components[i]))
            },
            None => None,
        }
    }

    /// The names of the components that have not recovered, with commas between
    /// them, and how many there are.
    fn names(&self) -> (r: (String, usize))
        ensures
            r.0@ == joined(names_of(unrecovered(self.list()))),
            r.1 == unrecovered(self.list()).len(),
    {
        let mut out = String::new();
        let mut n: usize = 0;
        let mut i: usize = 0;
        let ghost list = self.list();
        let ghost mut done: Seq<Seq<char>> = Seq::empty();
        assert(list.take(0) =~= Seq::<Failure>::empty());
        assert(names_of(unrecovered(list.take(0))) =~= Seq::<Seq<char>>::empty());
        while i < self.components.len()
            invariant
                i <= self.components@.len(),
                list == self.list(),
                n <= i,
                done == names_of(unrecovered(list.take(i as int))),
                n == done.len(),
                n == unrecovered(list.take(i as int)).len(),
                out@ == joined(done),
            decreases self.components@.len() - i,
        {
            proof {
                assert(list.take(i + 1).drop_last() =~= list.take(i as int));
                assert(list.take(i + 1).last() == self.components@[i as int]@);
            }
            if self.components[i].is_degraded() {
                let name: &str = self.components[i].name.as_str();
                if n == 0 {
                    out.append(name);
                    assert(out@ =~= name@);
                } else {
                    push_joined(&mut out, Ghost(done), name);
                }
                proof {
                    let next = unrecovered(list.take(i + 1));
                    assert(names_of(next) =~= done.push(name@));
                    done = done.push(name@);
                }
                n += 1;
            }
            i += 1;
        }
        assert(list.take(i as int) =~= list);
        (out, n)
    }

    pub open spec fn spec_status(list: Seq<Failure>) -> Seq<char> {
        let bad = unrecovered(list);
        if bad.len() == 0 {
            "OK"@
        } else {
            "DEGRADED ("@ + text::decimal(bad.len()) + "): "@ + joined(names_of(bad))
        }
    }

    /// The status in words.
    pub fn status_string(&self) -> (r: String)
        ensures
            r@ == Self::spec_status(self.list()),
    {
        let (list, n) = self.names();
        if n == 0 {
            return "OK".to_owned();
        }
        let mut out = "DEGRADED (".to_owned();
        text::push_decimal(&mut out, n as u64);
        out.append("): ");
        out.append(list.as_str());
        out
    }

    pub open spec fn spec_summary(list: Seq<Failure>) -> Seq<char> {
        let bad = unrecovered(list);
        if bad.len() == 0 {
            "none"@
        } else {
            joined(names_of(bad))
        }
    }

    /// The names of what has failed.
    pub fn summary(&self) -> (r: String)
        ensures
            r@ == Self::spec_summary(self.list()),
    {
        let (list, n) = self.names();
        if n == 0 {
            return "none".to_owned();
        }
        list
    }

    /// Where the state is to be saved, if anywhere.
    pub fn persist(&self) -> (r: Option<String>)
        ensures
            r == (if self.config.persist_state {
                self.persist_path
            } else {
                None
            }),
    {
        if self.config.persist_state {
            match &self.persist_path {
                Some(p) => Some(p.clone()),
                None => None,
            }
        } else {
            None
        }
    }

    pub fn metrics_snapshot(&self) -> (r: DegradedMetricsSnapshot)
        ensures
            r.marks == self.metrics.marks,
            r.recoveries == self.metrics.recoveries,
            r.clears == self.metrics.clears,
            r.clears_all == self.metrics.clears_all,
            r.persistence_failures == self.metrics.persistence_failures,
            r.events_emitted == self.metrics.events_emitted,
    {
        self.metrics.snapshot()
    }

    pub fn config(&self) -> (r: &DegradedConfig)
        ensures
            *r == self.config,
    {
        &self.config
    }
}

impl Clone for DegradedManager {
    /// The same settings and components, with new counters.
    fn clone(&self) -> (r: Self)
        ensures
            r.list() == self.list(),
            r.same_settings(*self),
            r.metrics == (DegradedMetrics {
                marks: 0,
                recoveries: 0,
                clears: 0,
                clears_all: 0,
                persistence_failures: 0,
                events_emitted: 0,
            }),
    {
        DegradedManager {
            components: self.components(),
            config: self.config.clone(),
            persist_path: match &self.persist_path {
                Some(p) => Some(p.clone()),
                None => None,
            },
            metrics: DegradedMetrics::default(),
        }
    }
}

/// The failure at `i` is the first of that name that has not recovered.
pub open spec fn first_degraded(list: Seq<Failure>, name: Seq<char>, i: int) -> bool {
    &&& 0 <= i < list.len()
    &&& list[i].name == name
    &&& !list[i].recovered
    &&& forall|j: int|
        0 <= j < i ==> !((#[trigger] list[j]).name == name && !list[j].recovered)
}

// ---------------------------------------------------------------------------
// Persistent state
// ---------------------------------------------------------------------------

/// The saved state.
#[derive(Debug)]
pub struct PersistentState {
    pub version: u32,
    pub components: Vec<DegradedComponent>,
    pub last_modified: u64,
}

impl PersistentState {
    /// The state of a manager at the time `now`.
    pub fn from_manager(manager: &DegradedManager, now: u64) -> (r: Self)
        ensures
            r.version == CURRENT_VERSION,
            failures(r.components@) == manager.list(),
            r.last_modified == now,
    {
        PersistentState {
            version: CURRENT_VERSION,
            components: manager.components(),
            last_modified: now,
        }
    }

    pub fn into_components(self) -> (r: Vec<DegradedComponent>)
        ensures
            r == self.components,
    {
        self.components
    }
}

/// How a saved state is laid out.
#[derive(Debug, Clone, Copy, PartialEq, Eq, Structural)]
pub enum StateForm {
    /// An object with version, components and time.
    Versioned,
    /// Just the components.
    Legacy,
}

/// The number under a key of a JSON text, where the text is an object with an
/// unsigned integer there; or what is wrong with a text that is not JSON.
pub uninterp spec fn json_number(text: Seq<char>, key: Seq<char>) -> Result<
    Option<u64>,
    Seq<char>,
>;

/// `serde_json::from_str` reads a text as a JSON value, whose member under the key
/// is taken as an unsigned integer; the result depends on the text and the key
/// alone. Nothing is said of what it is for a given text.
#[verifier::external_body]
fn parse_number(text: &str, key: &str) -> (r: Result<Option<u64>, String>)
    ensures
        match r {
            Ok(v) => json_number(text@, key@) == Ok::<Option<u64>, Seq<char>>(v),
            Err(e) => json_number(text@, key@) == Err::<Option<u64>, Seq<char>>(e@),
        },
{
    match serde_json::from_str::<serde_json::Value>(text) {
        Ok(v) => Ok(v.get(key).and_then(|n| n.as_u64())),
        Err(e) => Err(e.to_string()),
    }
}

/// The layout of a state with that version: without one it is the old layout, and
/// any version but the current one is refused.
pub fn state_form(version: Option<u64>) -> (r: DegradedResult<StateForm>)
    ensures
        match version {
            None => r == Ok::<StateForm, DegradedError>(StateForm::Legacy),
            Some(v) => if v == CURRENT_VERSION {
                r == Ok::<StateForm, DegradedError>(StateForm::Versioned)
            } else {
                r == Err::<StateForm, DegradedError>(
                    DegradedError::UnsupportedVersion {
                        version: (v % 0x1_0000_0000) as u32,
                        expected: CURRENT_VERSION,
                    },
                )
            },
        },
{
    match version {
        None => Ok(StateForm::Legacy),
        Some(v) => if v == CURRENT_VERSION as u64 {
            Ok(StateForm::Versioned)
        } else {
            Err(
                DegradedError::UnsupportedVersion {
                    version: (v % 0x1_0000_0000) as u32,
                    expected: CURRENT_VERSION,
                },
            )
        },
    }
}

/// The layout of a saved state.
pub fn load_form(text: &str) -> (r: DegradedResult<StateForm>)
    ensures
        match json_number(text@, "version"@) {
            Err(m) => r matches Err(DegradedError::Persistence(s)) && s@ == "parse error: "@ + m,
            Ok(None) => r == Ok::<StateForm, DegradedError>(StateForm::Legacy),
            Ok(Some(v)) => if v == CURRENT_VERSION {
                r == Ok::<StateForm, DegradedError>(StateForm::Versioned)
            } else {
                r == Err::<StateForm, DegradedError>(
                    DegradedError::UnsupportedVersion {
                        version: (v % 0x1_0000_0000) as u32,
                        expected: CURRENT_VERSION,
                    },
                )
            },
        },
{
    match parse_number(text, "version") {
        Ok(v) => state_form(v),
        Err(e) => {
            let mut m = "parse error: ".to_owned();
            m.append(e.as_str());
            Err(DegradedError::Persistence(m))
        },
    }
}

/// The file that a state is written to before it takes the place of the old one.
pub fn temp_path(path: &str) -> (r: String)
    ensures
        r@ == path@ + TEMP_EXT@,
{
    let mut out = path.to_owned();
    out.append(TEMP_EXT);
    out
}

// ---------------------------------------------------------------------------
// The kernel-wide manager, which its owner passes in
// ---------------------------------------------------------------------------

/// Sets up the manager.
pub fn init_global(
    global: &mut Option<DegradedManager>,
    config: DegradedConfig,
    loaded: Option<Vec<DegradedComponent>>,
) -> (r: Result<(), &'static str>)
    ensures
        match r {
            Ok(_) => config.broken_rule() is None && (*final(global) matches Some(m)
                && m.starts_with(config, loaded)),
            Err(e) => config.broken_rule() is Some && e@ == "failed to create degraded manager"@
                && *final(global) == *old(global),
        },
{
    match DegradedManager::new(config, loaded) {
        Ok(m) => {
            *global = Some(m);
            Ok(())
        },
        Err(_) => Err("failed to create degraded manager"),
    }
}

/// Whether at least one component has failed and not recovered.
#[must_use]
pub fn is_degraded(m: &DegradedManager) -> (r: bool)
    ensures
        r == (unrecovered(m.list()).len() > 0),
{
    m.is_degraded()
}

/// How many components have failed and not recovered.
#[must_use]
pub fn degraded_count(m: &DegradedManager) -> (r: usize)
    ensures
        r == unrecovered(m.list()).len(),
{
    m.degraded_count()
}

/// Marks a component as failed at the time `now`.
pub fn mark_degraded(
    m: &mut DegradedManager,
    name: &str,
    reason: &str,
    affects: &[&str],
    now: u64,
) -> (r: Change)
    ensures
        DegradedManager::marked(*old(m), *final(m), name@, reason@, str_texts(affects@), now, r),
{
    m.mark_degraded(name, reason, affects, now)
}

/// Takes a component off the list.
pub fn clear_degraded(m: &mut DegradedManager, name: &str) -> (r: (bool, Change))
    ensures
        DegradedManager::cleared(*old(m), *final(m), name@, r.0, r.1),
{
    m.clear_component(name)
}

/// Empties the list.
pub fn clear_all(m: &mut DegradedManager) -> (r: Change)
    ensures
        DegradedManager::all_cleared(*old(m), *final(m), r),
{
    m.clear_all()
}

/// A copy of all components.
#[must_use]
pub fn components(m: &DegradedManager) -> (r: Vec<DegradedComponent>)
    ensures
        failures(r@) == m.list(),
{
    m.components()
}

/// The status in words.
#[must_use]
pub fn status_string(m: &DegradedManager) -> (r: String)
    ensures
        r@ == DegradedManager::spec_status(m.list()),
{
    m.status_string()
}

/// Whether a component has failed and not recovered.
#[must_use]
pub fn is_degraded_for(m: &DegradedManager, component: &str) -> (r: bool)
    ensures
        r == degraded_for(m.list(), component@),
{
    m.is_degraded_for(component)
}

/// Calls `f` on a component that has failed and not recovered.
pub fn with_degraded<R, F: FnOnce(&DegradedComponent) -> R>(
    m: &DegradedManager,
    component: &str,
    f: F,
) -> (r: Option<R>)
    requires
        forall|i: int|
            0 <= i < m.components@.len() && first_degraded(m.list(), component@, i)
                ==> call_requires(f, (&#[trigger] m.components@[i],)),
    ensures
        match r {
            Some(v) => exists|i: int|
                0 <= i < m.components@.len() && first_degraded(m.list(), component@, i)
                    && call_ensures(f, (&#[trigger] m.components@[i],), v),
            None => !degraded_for(m.list(), component@),
        },
{
    m.with_degraded(component, f)
}

/// Where the state is to be saved, if anywhere.
pub fn persist_status(m: &DegradedManager) -> (r: Option<String>)
    ensures
        r == (if m.config.persist_state {
            m.persist_path
        } else {
            None
        }),
{
    m.persist()
}

/// The names of what has failed.
#[must_use]
pub fn summary(m: &DegradedManager) -> (r: String)
    ensures
        r@ == DegradedManager::spec_summary(m.list()),
{
    m.summary()
}

/// Marks a component as recovered at the time `now`.
pub fn mark_recovered(m: &mut DegradedManager, name: &str, now: u64) -> (r: (bool, Change))
    ensures
        DegradedManager::recovered(*old(m), *final(m), name@, now, r.0, r.1),
{
    m.mark_recovered(name, now)
}

#[must_use]
pub fn metrics(m: &DegradedManager) -> (r: DegradedMetricsSnapshot)
    ensures
        r.marks == m.metrics.marks,
        r.recoveries == m.metrics.recoveries,
        r.clears == m.metrics.clears,
        r.clears_all == m.metrics.clears_all,
        r.persistence_failures == m.metrics.persistence_failures,
        r.events_emitted == m.metrics.events_emitted,
{
    m.metrics_snapshot()
}

// ---------------------------------------------------------------------------
// Laws
// ---------------------------------------------------------------------------

/// A component that is marked counts as degraded until it recovers, is cleared or
/// makes room for others; the list keeps to its maximum and holds no name twice.
pub proof fn law_marked_is_degraded(list: Seq<Failure>, c: Failure, max: usize)
    requires
        max > 0,
        list.len() <= max,
        names_unique(list),
        !c.recovered,
    ensures
        degraded_for(list_after(list, c, max), c.name),
        list_after(list, c, max).len() <= max,
        names_unique(list_after(list, c, max)),
{
    let after = list_after(list, c, max);
    lemma_find(list, c.name, 0);
    match find_from(list, c.name, 0) {
        Some(i) => {
            assert(after[i].name == c.name && !after[i].recovered);
        },
        None => {
            assert(after.last() == c);
            assert(after[after.len() - 1].name == c.name);
        },
    }
}

/// A component that recovers does not count as degraded any more, and the others
/// count as they did.
pub proof fn law_recovered_is_not_degraded(
    pre: DegradedManager,
    post: DegradedManager,
    name: Seq<char>,
    now: u64,
    r: bool,
    change: Change,
    other: Seq<char>,
)
    requires
        names_unique(pre.list()),
        DegradedManager::recovered(pre, post, name, now, r, change),
        other != name,
    ensures
        !degraded_for(post.list(), name),
        degraded_for(post.list(), other) == degraded_for(pre.list(), other),
{
    let a = pre.list();
    let b = post.list();
    lemma_find(a, name, 0);
    if degraded_for(b, name) {
        let i = choose|i: int|
            0 <= i < b.len() && (#[trigger] b[i]).name == name && !b[i].recovered;
        assert(a[i].name == name);
        assert(false);
    }
    if degraded_for(a, other) {
        let i = choose|i: int|
            0 <= i < a.len() && (#[trigger] a[i]).name == other && !a[i].recovered;
        assert(b[i] == a[i]);
    }
    if degraded_for(b, other) {
        let i = choose|i: int|
            0 <= i < b.len() && (#[trigger] b[i]).name == other && !b[i].recovered;
        assert(b[i] == a[i]);
    }
}

/// A component that is cleared is not in the list any more; all others are, in
/// their order.
pub proof fn law_cleared_is_gone(list: Seq<Failure>, name: Seq<char>)
    ensures
        forall|i: int|
            0 <= i < without(list, name).len() ==> (#[trigger] without(list, name)[i]).name != name,
        without(list, name).len() <= list.len(),
        (forall|i: int| 0 <= i < list.len() ==> (#[trigger] list[i]).name != name) ==> without(
            list,
            name,
        ) == list,
        forall|c: Failure| c.name != name && list.contains(c) ==> #[trigger] without(
            list,
            name,
        ).contains(c),
    decreases list.len(),
{
    if list.len() > 0 {
        let init = list.drop_last();
        law_cleared_is_gone(init, name);
        let w = without(init, name);
        if forall|i: int| 0 <= i < list.len() ==> (#[trigger] list[i]).name != name {
            assert forall|i: int| 0 <= i < init.len() implies (#[trigger] init[i]).name != name by {
                assert(list[i].name != name);
            }
            assert(list[list.len() - 1].name != name);
            assert(without(list, name) =~= list);
        }
        assert forall|c: Failure| c.name != name && list.contains(c) implies #[trigger] without(
            list,
            name,
        ).contains(c) by {
            let k = choose|k: int| 0 <= k < list.len() && list[k] == c;
            if k < list.len() - 1 {
                assert(init[k] == c);
                assert(init.contains(c));
                assert(w.contains(c));
                let j = choose|j: int| 0 <= j < w.len() && w[j] == c;
                assert(without(list, name)[j] == c);
            } else {
                assert(without(list, name)[w.len() as int] == c);
            }
        }
    }
}

/// A failure that is noted under a new name comes last in the list with what was said of
/// it, not recovered; where the list is full the oldest goes and that is told too. Under a
/// name that is there it takes the place of the old one where it says something else or
/// where that had recovered, and else nothing changes. Without a name or a reason nothing
/// changes either.
pub proof fn law_noted_failure_is_in_the_list(
    m: &mut DegradedManager,
    name: &str,
    reason: &str,
    affects: &[&str],
    now: u64,
    r: Change,
    i: int,
)
    requires
        call_ensures(DegradedManager::mark_degraded, (m, name, reason, affects, now), r),
        old(m).config.max_components > 0,
        names_unique(old(m).list()),
        0 <= i < old(m).list().len(),
    ensures
        ({
            let was = old(m).list();
            let now_list = final(m).list();
            let told = notices(r.events@);
            let n = was.len() as int;
            let empty = name@.len() == 0 || reason@.len() == 0;
            let known = exists|j: int| 0 <= j < n && (#[trigger] was[j]).name == name@;
            let full = n >= old(m).config.max_components;
            let c = Failure {
                name: name@,
                reason: reason@,
                affects: str_texts(affects@),
                timestamp_ms: now,
                recovered: false,
                recovered_at_ms: 0,
            };
            let same = was[i].reason == reason@ && was[i].affects == c.affects && !was[i].recovered;
            &&& empty ==> now_list == was && told.len() == 0 && !r.save
            &&& !empty && was[i].name == name@ && !same ==> now_list == was.update(i, c) && told
                == seq![Notice::Updated(c)] && (r.save <==> old(m).saves())
            &&& !empty && was[i].name == name@ && same ==> now_list == was && told.len() == 0
                && !r.save
            &&& !empty && !known && !full ==> now_list == was.push(c) && told == seq![
                Notice::Added(c),
            ] && (r.save <==> old(m).saves())
            &&& !empty && !known && full ==> now_list == was.drop_first().push(c) && told == seq![
                Notice::Cleared(was[0].name),
                Notice::Added(c),
            ]
            &&& names_unique(now_list)
        }),
{
    let was = old(m).list();
    lemma_find(was, name@, 0);
    let after = final(m).list();
    assert(notices(r.events@).len() == r.events@.len());
    match find_from(was, name@, 0) {
        Some(k) => {
            if was[i].name == name@ {
                if i < k {
                    assert(was[i].name != was[k].name);
                } else if k < i {
                    assert(was[k].name != was[i].name);
                }
                assert(i == k);
            }
        },
        None => {},
    }
    assert forall|a: int, b: int| 0 <= a < b < after.len() implies (#[trigger] after[a]).name != (
    #[trigger] after[b]).name by {
        if after.len() == was.len() && find_from(was, name@, 0) is None && !(name@.len() == 0
            || reason@.len() == 0) {
            assert(after[a] == was[a + 1]);
            if b < was.len() - 1 {
                assert(after[b] == was[b + 1]);
            }
        } else {
            assert(a < was.len() ==> after[a].name == was[a].name);
            if b < was.len() {
                assert(after[b].name == was[b].name);
                assert(was[a].name != was[b].name);
            }
        }
    }
}

/// A component recovers exactly where it is in the list and has not recovered; it then says
/// when, and keeps what else was said of it. No other entry changes.
pub proof fn law_recovery_is_noted(
    m: &mut DegradedManager,
    name: &str,
    now: u64,
    r: (bool, Change),
    i: int,
)
    requires
        call_ensures(DegradedManager::mark_recovered, (m, name, now), r),
        names_unique(old(m).list()),
        0 <= i < old(m).list().len(),
    ensures
        ({
            let was = old(m).list()[i];
            let c = final(m).list()[i];
            &&& was.name == name@ ==> (r.0 <==> !was.recovered)
            &&& was.name == name@ && !was.recovered ==> c.recovered && c.recovered_at_ms == now
                && c.reason == was.reason && c.affects == was.affects && c.timestamp_ms
                == was.timestamp_ms && c.name == was.name
            &&& was.name != name@ || was.recovered ==> c == was
            &&& final(m).list().len() == old(m).list().len()
            &&& r.0 ==> r.1.events@.len() == 1 && r.1.events@[0]@ is Recovered && (r.1.save <==> old(
                m).saves())
            &&& !r.0 ==> r.1.events@.len() == 0 && !r.1.save
            &&& r.0 && old(m).metrics.recoveries < u64::MAX ==> final(m).metrics.recoveries == old(
                m).metrics.recoveries + 1
        }),
{
    let list = old(m).list();
    lemma_find(list, name@, 0);
    if let Some(k) = find_from(list, name@, 0) {
        if list[i].name == name@ {
            if i < k {
                assert(list[i].name != list[k].name);
            } else if k < i {
                assert(list[k].name != list[i].name);
            }
        }
    }
    if r.0 {
        assert(notices(r.1.events@)[0] is Recovered);
        assert(notices(r.1.events@).len() == 1);
    }
}

/// Clearing a component takes the entries of its name from the list and no others, and says
/// so where there was one.
pub proof fn law_clearing_takes_the_name(
    m: &mut DegradedManager,
    name: &str,
    r: (bool, Change),
    all: &mut DegradedManager,
    change: Change,
)
    requires
        call_ensures(DegradedManager::clear_component, (m, name), r),
        call_ensures(DegradedManager::clear_all, (all,), change),
    ensures
        final(m).list() == old(m).list().filter(|f: Failure| f.name != name@),
        r.0 <==> exists|i: int| 0 <= i < old(m).list().len() && (#[trigger] old(m).list()[i]).name == name@,
        r.0 ==> notices(r.1.events@) == seq![Notice::Cleared(name@)] && (r.1.save <==> old(
            m).saves()),
        !r.0 ==> r.1.events@.len() == 0 && !r.1.save,
        final(all).list().len() == 0,
        old(all).list().len() > 0 ==> notices(change.events@) == seq![Notice::AllCleared] && (
        change.save <==> old(all).saves()),
        old(all).list().len() == 0 ==> change.events@.len() == 0 && !change.save,
{
    lemma_without_is_filter(old(m).list(), name@);
}

proof fn lemma_without_is_filter(list: Seq<Failure>, name: Seq<char>)
    ensures
        without(list, name) == list.filter(|f: Failure| f.name != name),
        without(list, name).len() <= list.len(),
        without(list, name).len() == list.len() <==> forall|i: int|
            0 <= i < list.len() ==> (#[trigger] list[i]).name != name,
    decreases list.len(),
{
    reveal(Seq::filter);
    if list.len() > 0 {
        let rest = list.drop_last();
        lemma_without_is_filter(rest, name);
        if forall|i: int| 0 <= i < list.len() ==> (#[trigger] list[i]).name != name {
            assert forall|i: int| 0 <= i < rest.len() implies (#[trigger] rest[i]).name != name by {
                assert(rest[i] == list[i]);
            }
            assert(list[list.len() - 1].name != name);
        }
        if without(list, name).len() == list.len() {
            assert forall|i: int| 0 <= i < list.len() implies (#[trigger] list[i]).name != name by {
                if i < rest.len() {
                    assert(rest[i] == list[i]);
                }
            }
        }
    }
}

proof fn lemma_unrecovered_is_filter(list: Seq<Failure>)
    ensures
        unrecovered(list) == list.filter(|f: Failure| !f.recovered),
    decreases list.len(),
{
    reveal(Seq::filter);
    if list.len() > 0 {
        lemma_unrecovered_is_filter(list.drop_last());
    }
}

/// What is degraded is what is in the list and has not recovered: it is counted, listed and
/// asked for as such.
pub proof fn law_degraded_has_not_recovered(
    m: &DegradedManager,
    any: bool,
    count: usize,
    list: Vec<DegradedComponent>,
    name: &str,
    named: bool,
    i: int,
)
    requires
        call_ensures(DegradedManager::is_degraded, (m,), any),
        call_ensures(DegradedManager::degraded_count, (m,), count),
        call_ensures(DegradedManager::degraded_components, (m,), list),
        call_ensures(DegradedManager::is_degraded_for, (m, name), named),
    ensures
        failures(list@) == m.list().filter(|f: Failure| !f.recovered),
        count == list@.len(),
        any <==> count > 0,
        0 <= i < m.list().len() && m.list()[i].name == name@ && !m.list()[i].recovered ==> named,
        named ==> exists|j: int|
            0 <= j < m.list().len() && (#[trigger] m.list()[j]).name == name@
                && !m.list()[j].recovered,
{
    lemma_unrecovered_is_filter(m.list());
    assert(failures(list@).len() == list@.len());
}

/// Names are told one behind the other with a comma and a space between two.
pub proof fn law_names_are_told_with_commas(s: Seq<Seq<char>>, x: Seq<char>)
    ensures
        joined(Seq::empty()) == Seq::<char>::empty(),
        joined(seq![x]) == x,
        s.len() > 0 ==> joined(s.push(x)) == joined(s) + ", "@ + x,
{
    assert(s.push(x).drop_last() =~= s);
    assert(s.push(x).last() == x);
}

/// The status is that all is well exactly where nothing is degraded; else it tells how many
/// components are and which, as the summary does.
pub proof fn law_status_tells_what_is_degraded(
    m: &DegradedManager,
    any: bool,
    count: usize,
    status: String,
    summary: String,
)
    requires
        call_ensures(DegradedManager::is_degraded, (m,), any),
        call_ensures(DegradedManager::degraded_count, (m,), count),
        call_ensures(DegradedManager::status_string, (m,), status),
        call_ensures(DegradedManager::summary, (m,), summary),
    ensures
        !any ==> status@ == "OK"@ && summary@ == "none"@,
        any ==> status@ == "DEGRADED ("@ + text::decimal(count as nat) + "): "@ + summary@,
        any ==> summary@ == joined(
            m.list().filter(|f: Failure| !f.recovered).map_values(|f: Failure| f.name),
        ),
{
    lemma_unrecovered_is_filter(m.list());
    let bad = unrecovered(m.list());
    assert(names_of(bad) =~= bad.map_values(|f: Failure| f.name));
}

/// A failure is told by its name and its reason, then by what it affects where it affects
/// something, and at the end by when it failed or, once it has recovered, by when it did.
pub proof fn law_failure_is_told(c: &DegradedComponent, r: String)
    requires
        call_ensures(DegradedComponent::describe, (c,), r),
    ensures
        ({
            let head = c.name@ + ": "@ + c.reason@;
            let failed = " ["@ + text::decimal(c.timestamp_ms as nat) + "ms]"@;
            let back = " [RECOVERED at "@ + text::decimal(c.recovered_at_ms as nat) + "ms]"@;
            let tail = if c.recovered {
                back
            } else {
                failed
            };
            &&& r@.take(head.len() as int) == head
            &&& r@.skip(r@.len() - tail.len()) == tail
            &&& c.affects@.len() == 0 ==> r@ == head + tail
            &&& c.affects@.len() > 0 ==> r@ == head + " (affects: "@ + joined(texts(c.affects@))
                + ")"@ + tail
        }),
{
    let head = c.name@ + ": "@ + c.reason@;
    let failed = " ["@ + text::decimal(c.timestamp_ms as nat) + "ms]"@;
    let back = " [RECOVERED at "@ + text::decimal(c.recovered_at_ms as nat) + "ms]"@;
    let tail = if c.recovered {
        back
    } else {
        failed
    };
    assert(texts(c.affects@).len() == c.affects@.len());
    if c.affects@.len() == 0 {
        assert(head + Seq::<char>::empty() =~= head);
        assert(r@ =~= head + tail);
    } else {
        assert(r@ =~= head + " (affects: "@ + joined(texts(c.affects@)) + ")"@ + tail);
    }
    assert(r@.take(head.len() as int) =~= head);
    assert(r@.skip(r@.len() - tail.len()) =~= tail);
}

/// A saved state is read in its form by its version: the first, or none at all for an old
/// one; any other version is refused with what it was. What is saved is the whole list.
pub proof fn law_saved_state_is_read_by_version(
    version: Option<u64>,
    r: DegradedResult<StateForm>,
    m: &DegradedManager,
    now: u64,
    saved: PersistentState,
)
    requires
        call_ensures(state_form, (version,), r),
        call_ensures(PersistentState::from_manager, (m, now), saved),
    ensures
        version is None ==> r == Ok::<StateForm, DegradedError>(StateForm::Legacy),
        version == Some(1u64) ==> r == Ok::<StateForm, DegradedError>(StateForm::Versioned),
        version is Some && version != Some(1u64) ==> r is Err && r->Err_0 is UnsupportedVersion,
        saved.version == 1,
        failures(saved.components@) == m.list(),
        saved.last_modified == now,
{
}

/// Settings pass exactly where a component may be listed and, where recovery is watched
/// for, some time passes between two looks.
pub proof fn law_degraded_settings_are_possible(c: &DegradedConfig, r: Result<(), &'static str>)
    requires
        call_ensures(DegradedConfig::validate, (c,), r),
    ensures
        r is Ok <==> c.max_components > 0 && (c.auto_recovery ==> c.recovery_check_interval_ms > 0),
        c.max_components == 0 ==> r is Err && r->Err_0@ == "max_components must be > 0"@,
{
}

} // verus!
