//! The killer for want of memory: which tasks go, and when the kernel gives up.
use crate::text;
use vstd::prelude::*;

verus! {

/// Settings of the killer.
#[derive(Debug, Clone, Copy, PartialEq, Eq)]
pub struct OomConfig {
    pub max_retries: usize,
    pub kill_idle: bool,
    pub log_kills: bool,
    pub collect_metrics: bool,
    pub panic_on_failure: bool,
    pub min_free_threshold_pages: usize,
}

impl Default for OomConfig {
    fn default() -> (r: Self)
        ensures
            r == (OomConfig {
                max_retries: 4,
                kill_idle: false,
                log_kills: true,
                collect_metrics: true,
                panic_on_failure: true,
                min_free_threshold_pages: 4,
            }),
    {
        OomConfig {
            max_retries: 4,
            kill_idle: false,
            log_kills: true,
            collect_metrics: true,
            panic_on_failure: true,
            min_free_threshold_pages: 4,
        }
    }
}

impl OomConfig {
    /// The first rule that the configuration breaks, if any.
    pub open spec fn broken_rule(&self) -> Option<Seq<char>> {
        if self.max_retries == 0 {
            Some("max_retries must be > 0"@)
        } else if self.min_free_threshold_pages == 0 {
            Some("min_free_threshold_pages must be > 0"@)
        } else {
            None
        }
    }

    pub fn validate(&self) -> (r: Result<(), &'static str>)
        ensures
            match r {
                Ok(_) => self.broken_rule() is None,
                Err(e) => self.broken_rule() == Some(e@),
            },
    {
        if self.max_retries == 0 {
            return Err("max_retries must be > 0");
        }
        if self.min_free_threshold_pages == 0 {
            return Err("min_free_threshold_pages must be > 0");
        }
        Ok(())
    }

    pub fn with_retries(self, n: usize) -> (r: Self)
        ensures
            r == (OomConfig { max_retries: n, ..self }),
    {
        OomConfig { max_retries: n, ..self }
    }

    pub fn with_metrics(self) -> (r: Self)
        ensures
            r == (OomConfig { collect_metrics: true, ..self }),
    {
        OomConfig { collect_metrics: true, ..self }
    }
}

/// Errors of the killer.
#[derive(Debug, Clone, PartialEq, Eq)]
pub enum OomError {
    NoVictims,
    Exhausted { attempts: usize },
    Config(String),
    MemoryNotFreed,
}

pub type OomResult<T> = Result<T, OomError>;

/// A task that was killed.
#[derive(Debug, Clone, Copy)]
pub struct Victim {
    pub tid: u64,
    pub priority: u8,
    pub reason: &'static str,
    pub freed_pages: usize,
}

/// Numbers of the killer.
#[derive(Debug, Clone, Copy, PartialEq, Eq)]
pub struct OomStats {
    pub total_events: u64,
    pub total_victims: u64,
    pub total_freed_pages: u64,
    pub failed_attempts: u64,
    pub panics: u64,
}

impl Default for OomStats {
    fn default() -> (r: Self)
        ensures
            r == (OomStats {
                total_events: 0,
                total_victims: 0,
                total_freed_pages: 0,
                failed_attempts: 0,
                panics: 0,
            }),
    {
        OomStats {
            total_events: 0,
            total_victims: 0,
            total_freed_pages: 0,
            failed_attempts: 0,
            panics: 0,
        }
    }
}

impl OomStats {
    /// The numbers as lines of text.
    pub fn describe(&self) -> (r: String)
        ensures
            r@ == "OOM Statistics:\n  Total events: "@ + text::decimal(self.total_events as nat)
                + "\n  Total victims: "@ + text::decimal(self.total_victims as nat)
                + "\n  Total freed pages: "@ + text::decimal(self.total_freed_pages as nat)
                + "\n  Failed attempts: "@ + text::decimal(self.failed_attempts as nat)
                + "\n  Panics: "@ + text::decimal(self.panics as nat) + "\n"@,
    {
        let mut out = "OOM Statistics:\n  Total events: ".to_owned();
        text::push_decimal(&mut out, self.total_events);
        out.append("\n  Total victims: ");
        text::push_decimal(&mut out, self.total_victims);
        out.append("\n  Total freed pages: ");
        text::push_decimal(&mut out, self.total_freed_pages);
        out.append("\n  Failed attempts: ");
        text::push_decimal(&mut out, self.failed_attempts);
        out.append("\n  Panics: ");
        text::push_decimal(&mut out, self.panics);
        out.append("\n");
        out
    }
}

/// What the killer has done.
#[derive(Debug, Clone, Copy, PartialEq, Eq)]
pub struct OomMetrics {
    pub events: u64,
    pub victims: u64,
    pub freed_pages: u64,
    pub failed_attempts: u64,
    pub panics: u64,
    pub retries: u64,
}

impl Default for OomMetrics {
    fn default() -> (r: Self)
        ensures
            r == (OomMetrics {
                events: 0,
                victims: 0,
                freed_pages: 0,
                failed_attempts: 0,
                panics: 0,
                retries: 0,
            }),
    {
        OomMetrics {
            events: 0,
            victims: 0,
            freed_pages: 0,
            failed_attempts: 0,
            panics: 0,
            retries: 0,
        }
    }
}

impl OomMetrics {
    pub fn inc_events(&mut self)
        ensures
            *final(self) == (OomMetrics {
                events: old(self).events.wrapping_add(1),
                ..*old(self)
            }),
    {
        self.events = self.events.wrapping_add(1);
    }

    pub fn inc_victims(&mut self)
        ensures
            *final(self) == (OomMetrics {
                victims: old(self).victims.wrapping_add(1),
                ..*old(self)
            }),
    {
        self.victims = self.victims.wrapping_add(1);
    }

    pub fn add_freed_pages(&mut self, pages: usize)
        ensures
            *final(self) == (OomMetrics {
                freed_pages: old(self).freed_pages.wrapping_add(pages as u64),
                ..*old(self)
            }),
    {
        self.freed_pages = self.freed_pages.wrapping_add(pages as u64);
    }

    pub fn inc_failed_attempt(&mut self)
        ensures
            *final(self) == (OomMetrics {
                failed_attempts: old(self).failed_attempts.wrapping_add(1),
                ..*old(self)
            }),
    {
        self.failed_attempts = self.failed_attempts.wrapping_add(1);
    }

    pub fn inc_panics(&mut self)
        ensures
            *final(self) == (OomMetrics {
                panics: old(self).panics.wrapping_add(1),
                ..*old(self)
            }),
    {
        self.panics = self.panics.wrapping_add(1);
    }

    pub fn inc_retry(&mut self)
        ensures
            *final(self) == (OomMetrics {
                retries: old(self).retries.wrapping_add(1),
                ..*old(self)
            }),
    {
        self.retries = self.retries.wrapping_add(1);
    }

    /// A copy of the counters.
    pub fn snapshot(&self) -> (r: OomMetricsSnapshot)
        ensures
            r == (OomMetricsSnapshot {
                events: self.events,
                victims: self.victims,
                freed_pages: self.freed_pages,
                failed_attempts: self.failed_attempts,
                panics: self.panics,
                retries: self.retries,
            }),
    {
        OomMetricsSnapshot {
            events: self.events,
            victims: self.victims,
            freed_pages: self.freed_pages,
            failed_attempts: self.failed_attempts,
            panics: self.panics,
            retries: self.retries,
        }
    }
}

/// A copy of [`OomMetrics`] at one moment.
#[derive(Debug, Clone, Copy, PartialEq, Eq)]
pub struct OomMetricsSnapshot {
    pub events: u64,
    pub victims: u64,
    pub freed_pages: u64,
    pub failed_attempts: u64,
    pub panics: u64,
    pub retries: u64,
}

// ---------------------------------------------------------------------------
// Killing
// ---------------------------------------------------------------------------

/// A kill as the scheduler reports it: the task, and the free pages before and after.
#[derive(Debug, Clone, Copy, PartialEq, Eq)]
pub struct Kill {
    pub tid: u64,
    pub before_free: usize,
    pub after_free: usize,
}

/// The pages that a kill has freed.
pub open spec fn freed_by(k: Kill) -> int {
    if k.after_free < k.before_free {
        0
    } else {
        k.after_free - k.before_free
    }
}

pub open spec fn victim_of(k: Kill) -> Victim {
    Victim { tid: k.tid, priority: 0, reason: "low priority", freed_pages: freed_by(k) as usize }
}

/// How many tasks are spared: the idle task, unless it may be killed too.
pub open spec fn spared(config: OomConfig) -> int {
    if config.kill_idle {
        0
    } else {
        1
    }
}

/// The counters after a kill.
pub open spec fn after_kill(m: OomMetrics, k: Kill) -> OomMetrics {
    OomMetrics {
        victims: m.victims.wrapping_add(1),
        freed_pages: m.freed_pages.wrapping_add(freed_by(k) as u64),
        ..m
    }
}

/// Kills a task, if there is one besides those that are spared. `kill` is called only
/// then: it has the scheduler kill the task of lowest priority.
pub fn kill_one<K: Fn() -> Kill>(
    config: &OomConfig,
    metrics: &mut OomMetrics,
    total_tasks: usize,
    kill: &K,
) -> (r: OomResult<Victim>)
    requires
        total_tasks > spared(*config) ==> call_requires(*kill, ()),
    ensures
        if total_tasks <= spared(*config) {
            r == Err::<Victim, OomError>(OomError::NoVictims) && *final(metrics) == *old(metrics)
        } else {
            exists|k: Kill| #[trigger]
                call_ensures(*kill, (), k) && r == Ok::<Victim, OomError>(victim_of(k))
                    && *final(metrics) == after_kill(*old(metrics), k)
        },
{
    let idle: usize = if config.kill_idle {
        0
    } else {
        1
    };
    if total_tasks <= idle {
        return Err(OomError::NoVictims);
    }
    let k: Kill = kill();
    let freed: usize = k.after_free.saturating_sub(k.before_free);
    metrics.inc_victims();
    metrics.add_freed_pages(freed);
    Ok(Victim { tid: k.tid, priority: 0, reason: "low priority", freed_pages: freed })
}

/// An answer of the scheduler: how many tasks there were, and the kill if there was
/// one.
pub struct Answer {
    pub tasks: usize,
    pub kill: Kill,
}

/// The pages freed by the first `n` kills.
pub open spec fn freed_sum(answers: Seq<Answer>, n: int) -> int
    decreases n,
{
    if n <= 0 {
        0
    } else {
        freed_sum(answers, n - 1) + freed_by(answers[n - 1].kill)
    }
}

/// The counters after the first `n` kills.
pub open spec fn after_kills(m: OomMetrics, answers: Seq<Answer>, n: int) -> OomMetrics
    decreases n,
{
    if n <= 0 {
        m
    } else {
        let k = after_kill(after_kills(m, answers, n - 1), answers[n - 1].kill);
        OomMetrics { retries: k.retries.wrapping_add(1), ..k }
    }
}

/// The victims of the first `n` kills.
pub open spec fn victims_of(answers: Seq<Answer>, n: int) -> Seq<Victim> {
    Seq::new(n as nat, |i: int| victim_of(answers[i].kill))
}

/// What killing is answered when the scheduler gave those answers: kills go on while
/// pages are missing and attempts are left.
pub open spec fn kill_outcome(
    config: OomConfig,
    required: usize,
    answers: Seq<Answer>,
    pre: OomMetrics,
    post: OomMetrics,
    r: OomResult<Vec<Victim>>,
) -> bool {
    let n = answers.len() as int;
    &&& n <= config.max_retries
    &&& forall|i: int| 0 <= i < n ==> #[trigger] freed_sum(answers, i) < required
    &&& forall|i: int| 0 <= i < n - 1 ==> (#[trigger] answers[i]).tasks > spared(config)
    &&& if n > 0 && answers[n - 1].tasks <= spared(config) {
        let m = after_kills(pre, answers, n - 1);
        &&& r == Err::<Vec<Victim>, OomError>(OomError::NoVictims)
        &&& post == (OomMetrics { failed_attempts: m.failed_attempts.wrapping_add(1), ..m })
    } else {
        &&& post == after_kills(pre, answers, n)
        &&& if freed_sum(answers, n) < required {
            &&& n == config.max_retries
            &&& r == Err::<Vec<Victim>, OomError>(
                OomError::Exhausted { attempts: config.max_retries },
            )
        } else {
            r matches Ok(v) && v@ == victims_of(answers, n)
        }
    }
}

/// The answers are what the two calls have returned.
pub open spec fn answered<T: Fn() -> usize, K: Fn() -> Kill>(
    tasks: T,
    kill: K,
    config: OomConfig,
    answers: Seq<Answer>,
) -> bool {
    forall|i: int|
        0 <= i < answers.len() ==> call_ensures(tasks, (), (#[trigger] answers[i]).tasks) && (
        answers[i].tasks > spared(config) ==> call_ensures(kill, (), answers[i].kill))
}

proof fn lemma_prefix(a: Seq<Answer>, b: Seq<Answer>, m: OomMetrics, n: int)
    requires
        n <= a.len(),
        n <= b.len(),
        forall|i: int| 0 <= i < n ==> #[trigger] a[i] == b[i],
    ensures
        freed_sum(a, n) == freed_sum(b, n),
        after_kills(m, a, n) == after_kills(m, b, n),
    decreases n,
{
    if n > 0 {
        lemma_prefix(a, b, m, n - 1);
        assert(a[n - 1] == b[n - 1]);
    }
}

/// Kills tasks until enough pages are free or no attempt is left. `tasks` counts the
/// tasks, `kill` has the scheduler kill one.
pub fn kill_many<T: Fn() -> usize, K: Fn() -> Kill>(
    config: &OomConfig,
    metrics: &mut OomMetrics,
    required_pages: usize,
    tasks: &T,
    kill: &K,
) -> (r: OomResult<Vec<Victim>>)
    requires
        call_requires(*tasks, ()),
        call_requires(*kill, ()),
    ensures
        exists|answers: Seq<Answer>| #[trigger]
            kill_outcome(
                *config,
                required_pages,
                answers,
                *old(metrics),
                *final(metrics),
                r,
            ) && answered(*tasks, *kill, *config, answers),
{
    let mut victims: Vec<Victim> = Vec::new();
    let mut total: usize = 0;
    let mut attempts: usize = 0;
    let ghost mut answers: Seq<Answer> = Seq::empty();
    assert(victims@ =~= victims_of(answers, 0));
    while attempts < config.max_retries && total < required_pages
        invariant
            call_requires(*tasks, ()),
            call_requires(*kill, ()),
            attempts <= config.max_retries,
            answers.len() == attempts,
            victims@ == victims_of(answers, attempts as int),
            total == (if freed_sum(answers, attempts as int) < usize::MAX {
                freed_sum(answers, attempts as int)
            } else {
                usize::MAX as int
            }),
            forall|i: int| 0 <= i < attempts ==> #[trigger] freed_sum(answers, i) < required_pages,
            forall|i: int| 0 <= i < attempts ==> (#[trigger] answers[i]).tasks > spared(*config),
            answered(*tasks, *kill, *config, answers),
            *metrics == after_kills(*old(metrics), answers, attempts as int),
        decreases config.max_retries - attempts,
    {
        let ghost before = answers;
        let count: usize = tasks();
        let one = kill_one(config, metrics, count, kill);
        proof {
            let k = if count > spared(*config) {
                choose|k: Kill| #[trigger]
                    call_ensures(*kill, (), k) && one == Ok::<Victim, OomError>(victim_of(k))
                        && *metrics == after_kill(
                        after_kills(*old(metrics), before, attempts as int),
                        k,
                    )
            } else {
                Kill { tid: 0, before_free: 0, after_free: 0 }
            };
            answers = before.push(Answer { tasks: count, kill: k });
            assert forall|i: int| 0 <= i <= attempts implies freed_sum(before, i) == freed_sum(
                answers,
                i,
            ) && after_kills(*old(metrics), before, i) == after_kills(
                *old(metrics),
                answers,
                i,
            ) by {
                lemma_prefix(before, answers, *old(metrics), i);
            }
            assert(forall|i: int|
                0 <= i <= attempts ==> #[trigger] freed_sum(answers, i) == freed_sum(before, i));
            assert forall|i: int| 0 <= i < answers.len() implies call_ensures(
                *tasks,
                (),
                (#[trigger] answers[i]).tasks,
            ) && (answers[i].tasks > spared(*config) ==> call_ensures(
                *kill,
                (),
                answers[i].kill,
            )) by {
                if i < attempts {
                    assert(answers[i] == before[i]);
                }
            }
        }
        match one {
            Ok(v) => {
                total = total.saturating_add(v.freed_pages);
                victims.push(v);
                assert(victims@ =~= victims_of(answers, attempts + 1));
            },
            Err(e) => {
                metrics.inc_failed_attempt();
                let r: OomResult<Vec<Victim>> = Err(e);
                assert(kill_outcome(
                    *config,
                    required_pages,
                    answers,
                    *old(metrics),
                    *metrics,
                    r,
                ));
                return r;
            },
        }
        attempts += 1;
        metrics.inc_retry();
    }
    let r: OomResult<Vec<Victim>> = if total < required_pages {
        Err(OomError::Exhausted { attempts: config.max_retries })
    } else {
        Ok(victims)
    };
    assert(kill_outcome(*config, required_pages, answers, *old(metrics), *metrics, r));
    r
}

/// Killing that succeeds has freed what was asked for, and no task too many: without
/// the last victim it would not have been enough.
pub proof fn law_kills_suffice(
    config: OomConfig,
    required: usize,
    answers: Seq<Answer>,
    pre: OomMetrics,
    post: OomMetrics,
    r: OomResult<Vec<Victim>>,
)
    requires
        kill_outcome(config, required, answers, pre, post, r),
        r is Ok,
    ensures
        freed_sum(answers, answers.len() as int) >= required,
        answers.len() <= config.max_retries,
        answers.len() > 0 ==> freed_sum(answers, answers.len() - 1) < required,
        r->Ok_0@.len() == answers.len(),
{
}

// ---------------------------------------------------------------------------
// The manager
// ---------------------------------------------------------------------------

/// What a failed allocation leads to.
#[derive(Debug, Clone, Copy, PartialEq, Eq)]
pub enum AllocFailure {
    /// There was memory enough: panic with this text.
    Inconsistent(&'static str),
    /// Kill tasks until that many pages are free.
    Kill { needed_pages: usize, required: usize },
}

/// How the kernel gives up after killing.
#[derive(Debug, Clone, Copy, PartialEq, Eq)]
pub struct GiveUp {
    /// What the panic says.
    pub message: &'static str,
    /// The message goes to the serial port too.
    pub printed: bool,
}

/// The killer.
#[derive(Debug)]
pub struct OomManager {
    pub config: OomConfig,
    pub metrics: OomMetrics,
    pub initialised: bool,
}

/// The pages for an allocation.
pub open spec fn pages_for(size: int) -> int {
    (size + 4095) / 4096
}

impl OomManager {
    pub fn new(config: OomConfig) -> (r: Self)
        requires
            config.broken_rule() is None,
        ensures
            r.config == config,
            r.metrics == (OomMetrics {
                events: 0,
                victims: 0,
                freed_pages: 0,
                failed_attempts: 0,
                panics: 0,
                retries: 0,
            }),
            !r.initialised,
    {
        OomManager { config, metrics: OomMetrics::default(), initialised: false }
    }

    pub fn default() -> (r: Self)
        ensures
            r.config == (OomConfig {
                max_retries: 4,
                kill_idle: false,
                log_kills: true,
                collect_metrics: true,
                panic_on_failure: true,
                min_free_threshold_pages: 4,
            }),
            r.metrics == (OomMetrics {
                events: 0,
                victims: 0,
                freed_pages: 0,
                failed_attempts: 0,
                panics: 0,
                retries: 0,
            }),
            !r.initialised,
    {
        OomManager::new(OomConfig::default())
    }

    pub fn config(&self) -> (r: &OomConfig)
        ensures
            *r == self.config,
    {
        &self.config
    }

    pub fn metrics(&self) -> (r: &OomMetrics)
        ensures
            *r == self.metrics,
    {
        &self.metrics
    }

    pub fn init(&mut self)
        ensures
            *final(self) == (OomManager { initialised: true, ..*old(self) }),
    {
        self.initialised = true;
    }

    /// An allocation of that size has failed while so many pages were free.
    pub fn handle_alloc_error(&mut self, size: usize, free_pages: usize) -> (r: AllocFailure)
        requires
            size + 4095 <= usize::MAX,
        ensures
            *final(self) == (OomManager {
                metrics: OomMetrics {
                    events: old(self).metrics.events.wrapping_add(1),
                    ..old(self).metrics
                },
                ..*old(self)
            }),
            if free_pages >= pages_for(size as int) {
                r matches AllocFailure::Inconsistent(s) && s@ == "OOM: inconsistent state"@
            } else {
                r == (AllocFailure::Kill {
                    needed_pages: pages_for(size as int) as usize,
                    required: (pages_for(size as int) - free_pages + 1) as usize,
                })
            },
    {
        self.metrics.inc_events();
        let needed: usize = (size + 4095) / 4096;
        if free_pages >= needed {
            return AllocFailure::Inconsistent("OOM: inconsistent state");
        }
        AllocFailure::Kill { needed_pages: needed, required: needed - free_pages + 1 }
    }

    /// How the kernel gives up when tasks were killed, or not, and so many pages are
    /// free. It always does: the allocation that failed is not tried again.
    pub fn give_up(
        &mut self,
        killed: &OomResult<Vec<Victim>>,
        free_pages: usize,
        needed_pages: usize,
    ) -> (r: GiveUp)
        ensures
            match *killed {
                Ok(_) => if free_pages < needed_pages {
                    r.message@ == "OOM: unable to allocate after killing tasks"@ && !r.printed
                } else {
                    r.message@ == "OOM: allocation failed after killing tasks"@ && r.printed
                },
                Err(_) => r.message@ == "OOM: unrecoverable"@ && r.printed
                    == !old(self).config.panic_on_failure,
            },
            *final(self) == (OomManager {
                metrics: if *killed is Ok && free_pages >= needed_pages {
                    old(self).metrics
                } else {
                    OomMetrics {
                        panics: old(self).metrics.panics.wrapping_add(1),
                        ..old(self).metrics
                    }
                },
                ..*old(self)
            }),
    {
        match killed {
            Ok(_) => {
                if free_pages < needed_pages {
                    self.metrics.inc_panics();
                    return GiveUp {
                        message: "OOM: unable to allocate after killing tasks",
                        printed: false,
                    };
                }
                GiveUp { message: "OOM: allocation failed after killing tasks", printed: true }
            },
            Err(_) => {
                self.metrics.inc_panics();
                GiveUp { message: "OOM: unrecoverable", printed: !self.config.panic_on_failure }
            },
        }
    }

    pub fn stats(&self) -> (r: OomStats)
        ensures
            r == (OomStats {
                total_events: self.metrics.events,
                total_victims: self.metrics.victims,
                total_freed_pages: self.metrics.freed_pages,
                failed_attempts: self.metrics.failed_attempts,
                panics: self.metrics.panics,
            }),
    {
        let snap = self.metrics.snapshot();
        OomStats {
            total_events: snap.events,
            total_victims: snap.victims,
            total_freed_pages: snap.freed_pages,
            failed_attempts: snap.failed_attempts,
            panics: snap.panics,
        }
    }

    pub fn metrics_snapshot(&self) -> (r: OomMetricsSnapshot)
        ensures
            r == (OomMetricsSnapshot {
                events: self.metrics.events,
                victims: self.metrics.victims,
                freed_pages: self.metrics.freed_pages,
                failed_attempts: self.metrics.failed_attempts,
                panics: self.metrics.panics,
                retries: self.metrics.retries,
            }),
    {
        self.metrics.snapshot()
    }

    pub fn reset_metrics(&mut self)
        ensures
            *final(self) == (OomManager {
                metrics: OomMetrics {
                    events: 0,
                    victims: 0,
                    freed_pages: 0,
                    failed_attempts: 0,
                    panics: 0,
                    retries: 0,
                },
                ..*old(self)
            }),
    {
        self.metrics = OomMetrics::default();
    }
}

/// An allocation of that size has failed while so many pages were free.
pub fn handle_alloc_error(m: &mut OomManager, size: usize, free_pages: usize) -> (r: AllocFailure)
    requires
        size + 4095 <= usize::MAX,
    ensures
        *final(m) == (OomManager {
            metrics: OomMetrics {
                events: old(m).metrics.events.wrapping_add(1),
                ..old(m).metrics
            },
            ..*old(m)
        }),
        if free_pages >= pages_for(size as int) {
            r matches AllocFailure::Inconsistent(s) && s@ == "OOM: inconsistent state"@
        } else {
            r == (AllocFailure::Kill {
                needed_pages: pages_for(size as int) as usize,
                required: (pages_for(size as int) - free_pages + 1) as usize,
            })
        },
{
    m.handle_alloc_error(size, free_pages)
}

/// Asks for one kill, and counts it as failed if there is no task to kill.
pub fn oom_kill<K: Fn() -> Kill>(m: &mut OomManager, total_tasks: usize, kill: &K)
    requires
        total_tasks > spared(old(m).config) ==> call_requires(*kill, ()),
    ensures
        final(m).config == old(m).config,
        final(m).initialised == old(m).initialised,
        ({
            let asked = OomMetrics {
                events: old(m).metrics.events.wrapping_add(1),
                ..old(m).metrics
            };
            if total_tasks <= spared(old(m).config) {
                final(m).metrics == (OomMetrics {
                    failed_attempts: asked.failed_attempts.wrapping_add(1),
                    ..asked
                })
            } else {
                exists|k: Kill| #[trigger]
                    call_ensures(*kill, (), k) && final(m).metrics == after_kill(asked, k)
            }
        }),
{
    m.metrics.inc_events();
    match kill_one(&m.config, &mut m.metrics, total_tasks, kill) {
        Ok(_) => {},
        Err(_) => {
            m.metrics.inc_failed_attempt();
        },
    }
}

/// The pages that a failed allocation needs hold it, and no fewer pages do. Killing
/// starts exactly where the free pages do not hold it, so always for an allocation of at
/// least one byte with no page free; it asks for as many pages as leave one to spare.
pub proof fn law_needed_pages_hold_the_allocation(
    m: &mut OomManager,
    size: usize,
    free: usize,
    r: AllocFailure,
)
    requires
        call_ensures(OomManager::handle_alloc_error, (m, size, free), r) || call_ensures(
            handle_alloc_error,
            (m, size, free),
            r,
        ),
    ensures
        r is Kill <==> free * 4096 < size,
        size > 0 && free == 0 ==> r is Kill,
        r matches AllocFailure::Kill { needed_pages, required } ==> {
            &&& needed_pages * 4096 >= size
            &&& (needed_pages - 1) * 4096 < size
            &&& free + required == needed_pages + 1
        },
        r matches AllocFailure::Inconsistent(text) ==> text@ == "OOM: inconsistent state"@,
        old(m).metrics.events < u64::MAX ==> final(m).metrics.events == old(m).metrics.events + 1,
        final(m).metrics.victims == old(m).metrics.victims,
        final(m).metrics.freed_pages == old(m).metrics.freed_pages,
        final(m).metrics.failed_attempts == old(m).metrics.failed_attempts,
        final(m).metrics.panics == old(m).metrics.panics,
        final(m).metrics.retries == old(m).metrics.retries,
        final(m).config == old(m).config,
{
}

/// A task is killed where more tasks than the spared idle one are there, and only there.
/// The victim is the task that the scheduler names, and what it freed is what lies
/// between the free pages before and after: it is counted as one victim with so many
/// pages.
pub proof fn law_victim_frees_the_difference<K: Fn() -> Kill>(
    config: &OomConfig,
    m: &mut OomMetrics,
    tasks: usize,
    kill: &K,
    r: OomResult<Victim>,
)
    requires
        call_ensures(kill_one, (config, m, tasks, kill), r),
    ensures
        r is Ok <==> tasks >= 1 && (tasks >= 2 || config.kill_idle),
        r is Err ==> r->Err_0 is NoVictims && *final(m) == *old(m),
        r matches Ok(v) ==> exists|k: Kill| #[trigger]
            call_ensures(*kill, (), k) && v.tid == k.tid && (k.before_free <= k.after_free ==>
                k.before_free + v.freed_pages == k.after_free) && (k.after_free < k.before_free
                ==> v.freed_pages == 0),
        r matches Ok(v) ==> {
            &&& old(m).victims < u64::MAX ==> final(m).victims == old(m).victims + 1
            &&& old(m).freed_pages + v.freed_pages <= u64::MAX ==> final(m).freed_pages == old(m).freed_pages + v.freed_pages
            &&& final(m).events == old(m).events
            &&& final(m).failed_attempts == old(m).failed_attempts
            &&& final(m).panics == old(m).panics
            &&& final(m).retries == old(m).retries
        },
{
}

/// The pages that the first `n` victims freed.
pub open spec fn freed_total(victims: Seq<Victim>, n: int) -> int
    decreases n,
{
    if n <= 0 {
        0
    } else {
        freed_total(victims, n - 1) + victims[n - 1].freed_pages
    }
}

/// The victims of the first kills have freed what the free pages grew by at each.
proof fn lemma_freed_total(answers: Seq<Answer>, victims: Seq<Victim>, n: int)
    requires
        0 <= n <= victims.len(),
        n <= answers.len(),
        victims == victims_of(answers, victims.len() as int),
    ensures
        freed_total(victims, n) == freed_sum(answers, n),
        freed_sum(answers, n) >= 0,
    decreases n,
{
    if n > 0 {
        lemma_freed_total(answers, victims, n - 1);
    }
}

/// The counters after kills, as long as none is full.
proof fn lemma_kills_counted(m: OomMetrics, answers: Seq<Answer>, n: int)
    requires
        0 <= n <= answers.len(),
    ensures
        freed_sum(answers, n) >= 0,
        m.victims + n <= u64::MAX ==> after_kills(m, answers, n).victims == m.victims + n,
        m.retries + n <= u64::MAX ==> after_kills(m, answers, n).retries == m.retries + n,
        m.freed_pages + freed_sum(answers, n) <= u64::MAX ==> after_kills(
            m,
            answers,
            n,
        ).freed_pages == m.freed_pages + freed_sum(answers, n),
        after_kills(m, answers, n).events == m.events,
        after_kills(m, answers, n).panics == m.panics,
        after_kills(m, answers, n).failed_attempts == m.failed_attempts,
    decreases n,
{
    if n > 0 {
        lemma_kills_counted(m, answers, n - 1);
    }
}

/// Killing succeeds with victims that together freed what was asked for, none of whom
/// could have been spared at the end, and at most as many as there are attempts. Each is
/// counted with its pages. It fails where no task is left to kill, which is counted as
/// one failed attempt, or where the attempts are used up.
pub proof fn law_victims_suffice<T: Fn() -> usize, K: Fn() -> Kill>(
    config: &OomConfig,
    m: &mut OomMetrics,
    required: usize,
    tasks: &T,
    kill: &K,
    r: OomResult<Vec<Victim>>,
)
    requires
        call_ensures(kill_many, (config, m, required, tasks, kill), r),
    ensures
        r matches Ok(v) ==> {
            let n = v@.len() as int;
            &&& n <= config.max_retries
            &&& freed_total(v@, n) >= required
            &&& n > 0 ==> freed_total(v@, n - 1) < required
            &&& old(m).victims + n <= u64::MAX ==> final(m).victims == old(m).victims + n
            &&& old(m).retries + n <= u64::MAX ==> final(m).retries == old(m).retries + n
            &&& old(m).freed_pages + freed_total(v@, n) <= u64::MAX ==> final(m).freed_pages
                == old(m).freed_pages + freed_total(v@, n)
            &&& final(m).failed_attempts == old(m).failed_attempts
        },
        r matches Err(OomError::Exhausted { attempts }) ==> {
            &&& attempts == config.max_retries
            &&& old(m).victims + attempts <= u64::MAX ==> final(m).victims == old(m).victims
                + attempts
            &&& final(m).failed_attempts == old(m).failed_attempts
        },
        r matches Err(OomError::NoVictims) ==> old(m).failed_attempts < u64::MAX ==> final(m).failed_attempts == old(m).failed_attempts + 1,
        r matches Err(e) ==> e is NoVictims || e is Exhausted,
        required == 0 ==> r is Ok && r->Ok_0@.len() == 0 && *final(m) == *old(m),
        final(m).events == old(m).events,
        final(m).panics == old(m).panics,
{
    let answers = choose|answers: Seq<Answer>| #[trigger]
        kill_outcome(*config, required, answers, *old(m), *final(m), r) && answered(
            *tasks,
            *kill,
            *config,
            answers,
        );
    let n = answers.len() as int;
    lemma_kills_counted(*old(m), answers, n);
    if n > 0 {
        lemma_kills_counted(*old(m), answers, n - 1);
    }
    if required == 0 {
        assert(freed_sum(answers, 0) >= 0);
        assert(n == 0);
    }
    if let Ok(v) = r {
        lemma_freed_total(answers, v@, n);
        if n > 0 {
            lemma_freed_total(answers, v@, n - 1);
        }
    }
}

/// A single request for a kill is counted as an event, and as a failed attempt exactly
/// where no task may be killed; else as a victim.
pub proof fn law_request_is_counted<K: Fn() -> Kill>(m: &mut OomManager, tasks: usize, kill: &K)
    requires
        call_ensures(oom_kill, (m, tasks, kill), ()),
        old(m).metrics.events < u64::MAX,
        old(m).metrics.victims < u64::MAX,
        old(m).metrics.failed_attempts < u64::MAX,
    ensures
        final(m).metrics.events == old(m).metrics.events + 1,
        final(m).metrics.victims + final(m).metrics.failed_attempts == old(m).metrics.victims
            + old(m).metrics.failed_attempts + 1,
        final(m).metrics.victims == old(m).metrics.victims + (if tasks >= 1 && (tasks >= 2 || old(m).config.kill_idle) {
            1int
        } else {
            0
        }),
        final(m).metrics.panics == old(m).metrics.panics,
        final(m).metrics.retries == old(m).metrics.retries,
        final(m).config == old(m).config,
{
}

/// Every way to give up but one is counted as a panic: the one where killing has freed
/// the pages that were needed. The message tells the three ways apart, and goes to the
/// serial port where pages were freed in vain, or where nothing was killed and a failure
/// is not to panic.
pub proof fn law_giving_up_is_counted(
    m: &mut OomManager,
    killed: &OomResult<Vec<Victim>>,
    free: usize,
    needed: usize,
    r: GiveUp,
)
    requires
        call_ensures(OomManager::give_up, (m, killed, free, needed), r),
        old(m).metrics.panics < u64::MAX,
    ensures
        final(m).metrics.panics == old(m).metrics.panics <==> *killed is Ok && free >= needed,
        final(m).metrics.panics <= old(m).metrics.panics + 1,
        final(m).metrics.events == old(m).metrics.events,
        final(m).metrics.victims == old(m).metrics.victims,
        *killed is Err ==> r.message@ == "OOM: unrecoverable"@ && (r.printed <==> !old(m).config.panic_on_failure),
        *killed is Ok && free < needed ==> r.message@
            == "OOM: unable to allocate after killing tasks"@ && !r.printed,
        *killed is Ok && free >= needed ==> r.message@
            == "OOM: allocation failed after killing tasks"@ && r.printed,
{
}

/// Settings pass exactly where at least one attempt is allowed and at least one page is
/// to be left free.
pub proof fn law_settings_allow_an_attempt(config: &OomConfig, r: Result<(), &'static str>)
    requires
        call_ensures(OomConfig::validate, (config,), r),
    ensures
        r is Ok <==> config.max_retries > 0 && config.min_free_threshold_pages > 0,
        config.max_retries == 0 ==> r is Err && r->Err_0@ == "max_retries must be > 0"@,
{
}

/// The numbers that are reported are those that were counted.
pub proof fn law_report_is_what_was_counted(
    m: &OomManager,
    stats: OomStats,
    snapshot: OomMetricsSnapshot,
)
    requires
        call_ensures(OomManager::stats, (m,), stats),
        call_ensures(OomManager::metrics_snapshot, (m,), snapshot),
    ensures
        stats.total_events == snapshot.events == m.metrics.events,
        stats.total_victims == snapshot.victims == m.metrics.victims,
        stats.total_freed_pages == snapshot.freed_pages == m.metrics.freed_pages,
        stats.failed_attempts == snapshot.failed_attempts == m.metrics.failed_attempts,
        stats.panics == snapshot.panics == m.metrics.panics,
        snapshot.retries == m.metrics.retries,
{
}

/// What the killer tells of itself has each number on a line behind its name.
pub proof fn law_killer_tells_its_numbers(s: &OomStats, r: String)
    requires
        call_ensures(OomStats::describe, (s,), r),
    ensures
        text::tells(r@, "OOM Statistics:\n  Total events: "@ + text::decimal(s.total_events as nat)),
        text::tells(r@, "\n  Total victims: "@ + text::decimal(s.total_victims as nat)),
        text::tells(r@, "\n  Total freed pages: "@ + text::decimal(s.total_freed_pages as nat)),
        text::tells(r@, "\n  Failed attempts: "@ + text::decimal(s.failed_attempts as nat)),
        text::tells(r@, "\n  Panics: "@ + text::decimal(s.panics as nat)),
{
    let pieces = seq![
        "OOM Statistics:\n  Total events: "@,
        text::decimal(s.total_events as nat),
        "\n  Total victims: "@,
        text::decimal(s.total_victims as nat),
        "\n  Total freed pages: "@,
        text::decimal(s.total_freed_pages as nat),
        "\n  Failed attempts: "@,
        text::decimal(s.failed_attempts as nat),
        "\n  Panics: "@,
        text::decimal(s.panics as nat),
        "\n"@,
    ];
    reveal_with_fuel(text::put_together, 12);
    assert(r@ == text::put_together(pieces, 11));
    text::lemma_tells(pieces, 11, 0);
    text::lemma_tells(pieces, 11, 2);
    text::lemma_tells(pieces, 11, 4);
    text::lemma_tells(pieces, 11, 6);
    text::lemma_tells(pieces, 11, 8);
}

} // verus!
