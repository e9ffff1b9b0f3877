//! Task accounting of the GPU validator swarm: swarm-wide and per-validator
//! task counts, named counters and the window of recent latencies.

use vstd::prelude::*;
use crate::strmap::StrMap;
use crate::text::owned;

verus! {

/// Swarm-wide counts.
#[derive(Clone, Copy, Debug, PartialEq, Eq, Structural)]
pub struct SwarmMetrics {
    pub total_validators: u64,
    pub active_validators: u64,
    pub quarantined_validators: u64,
    pub total_tasks: u64,
    pub successful_tasks: u64,
    pub failed_tasks: u64,
    /// Tasks whose outputs diverged.
    pub divergent_tasks: u64,
    pub cpu_fallbacks: u64,
}

impl SwarmMetrics {
    /// All counts zero.
    pub fn zero() -> (m: SwarmMetrics)
        ensures
            m == (SwarmMetrics {
                total_validators: 0,
                active_validators: 0,
                quarantined_validators: 0,
                total_tasks: 0,
                successful_tasks: 0,
                failed_tasks: 0,
                divergent_tasks: 0,
                cpu_fallbacks: 0,
            }),
    {
        SwarmMetrics {
            total_validators: 0,
            active_validators: 0,
            quarantined_validators: 0,
            total_tasks: 0,
            successful_tasks: 0,
            failed_tasks: 0,
            divergent_tasks: 0,
            cpu_fallbacks: 0,
        }
    }
}

/// The counts of one validator.
#[derive(Clone, Debug)]
pub struct ValidatorMetrics {
    pub validator_id: String,
    pub tasks_completed: u64,
    pub tasks_failed: u64,
    pub divergences: u64,
    /// When its last task was recorded (Unix seconds).
    pub last_task_at: Option<i64>,
    /// The sum of its task latencies (ms), saturating; its average is this
    /// over the tasks completed.
    pub total_latency_ms: u64,
    pub stake: u64,
}

/// `n`, capped at the largest 64-bit value.
pub open spec fn saturated(n: int) -> u64 {
    if n > u64::MAX { u64::MAX } else { n as u64 }
}

/// The most latencies kept.
pub open spec fn latency_window() -> nat {
    10000
}

/// `a + b` wrapped to 64 bits, as an atomic counter adds.
pub open spec fn wrapping_sum(a: u64, b: u64) -> u64 {
    if a + b > u64::MAX { (a + b - 0x1_0000_0000_0000_0000) as u64 } else { (a + b) as u64 }
}

/// A counter's value: zero where it was never incremented.
pub open spec fn counter_value(counters: Map<Seq<char>, u64>, name: Seq<char>) -> u64 {
    if counters.contains_key(name) { counters[name] } else { 0 }
}

/// The counters after adding `value` to `name`.
pub open spec fn incremented(counters: Map<Seq<char>, u64>, name: Seq<char>, value: u64) -> Map<Seq<char>, u64> {
    counters.insert(name, wrapping_sum(counter_value(counters, name), value))
}

/// The counters after recording a task: `tasks_total`, then
/// `tasks_success` or `tasks_failed`, then `tasks_divergent` where it
/// diverged, each up by one.
pub open spec fn counters_after_task(c: Map<Seq<char>, u64>, success: bool, divergent: bool) -> Map<Seq<char>, u64> {
    let c1 = incremented(c, "tasks_total"@, 1);
    let c2 = if success { incremented(c1, "tasks_success"@, 1) } else { incremented(c1, "tasks_failed"@, 1) };
    if divergent { incremented(c2, "tasks_divergent"@, 1) } else { c2 }
}

/// The latencies after recording one: the oldest 1000 are dropped once
/// more than 10 000 are kept.
pub open spec fn latencies_after(l: Seq<u64>, latency_ms: u64) -> Seq<u64> {
    if l.len() + 1 > latency_window() { l.push(latency_ms).skip(1000) } else { l.push(latency_ms) }
}

/// Collects the swarm's task metrics.
pub struct MetricsCollector {
    swarm: SwarmMetrics,
    validators: StrMap<ValidatorMetrics>,
    counters: StrMap<u64>,
    latencies: Vec<u64>,
}

impl MetricsCollector {
    /// The swarm-wide counts.
    pub closed spec fn swarm_spec(&self) -> SwarmMetrics {
        self.swarm
    }

    /// The metrics of each validator, by id.
    pub closed spec fn validators_spec(&self) -> Map<Seq<char>, ValidatorMetrics> {
        self.validators@
    }

    /// The named counters.
    pub closed spec fn counters_spec(&self) -> Map<Seq<char>, u64> {
        self.counters@
    }

    /// The recent latencies, oldest first.
    pub closed spec fn latencies_spec(&self) -> Seq<u64> {
        self.latencies@
    }

    /// Each task succeeded or failed; no validator has more tasks than the
    /// swarm, nor more failures or divergences than tasks; each is kept
    /// under its id; at most 10 000 latencies are kept.
    pub closed spec fn wf(&self) -> bool {
        &&& self.validators.wf()
        &&& self.counters.wf()
        &&& self.swarm.successful_tasks + self.swarm.failed_tasks == self.swarm.total_tasks
        &&& self.swarm.divergent_tasks <= self.swarm.total_tasks
        &&& forall|k: Seq<char>| #[trigger] self.validators@.contains_key(k) ==> {
            let v = self.validators@[k];
            &&& v.validator_id@ == k
            &&& v.tasks_completed <= self.swarm.total_tasks
            &&& v.tasks_failed <= v.tasks_completed
            &&& v.divergences <= v.tasks_completed
        }
        &&& self.latencies@.len() <= latency_window()
    }

    /// A collector with nothing recorded.
    pub fn new() -> (m: MetricsCollector)
        ensures
            m.wf(),
            m.swarm_spec() == SwarmMetrics::zero_spec(),
            m.validators_spec() == Map::<Seq<char>, ValidatorMetrics>::empty(),
            m.counters_spec() == Map::<Seq<char>, u64>::empty(),
            m.latencies_spec().len() == 0,
    {
        MetricsCollector { swarm: SwarmMetrics::zero(), validators: StrMap::new(), counters: StrMap::new(), latencies: Vec::new() }
    }

    /// Adds `value` to the counter `name`, wrapping at 64 bits.
    pub fn increment(&mut self, name: &str, value: u64)
        requires
            old(self).wf(),
        ensures
            final(self).wf(),
            final(self).counters_spec() == incremented(old(self).counters_spec(), name@, value),
            final(self).swarm_spec() == old(self).swarm_spec(),
            final(self).validators_spec() == old(self).validators_spec(),
            final(self).latencies_spec() == old(self).latencies_spec(),
    {
        let current: u64 = match self.counters.get(name) {
            Some(v) => *v,
            None => 0,
        };
        self.counters.insert(owned(name), current.wrapping_add(value));
    }

    /// The value of the counter `name`, zero where it was never incremented.
    pub fn get_counter(&self, name: &str) -> (v: u64)
        requires
            self.wf(),
        ensures
            v == counter_value(self.counters_spec(), name@),
    {
        match self.counters.get(name) {
            Some(v) => *v,
            None => 0,
        }
    }

    /// Records a task of `validator_id` that took `latency_ms`, at `now`
    /// (Unix seconds): swarm and validator counts, the latency window and
    /// the counters.
    pub fn record_task(&mut self, validator_id: &str, latency_ms: u64, success: bool, divergent: bool, now: i64)
        requires
            old(self).wf(),
            old(self).swarm_spec().total_tasks < u64::MAX,
        ensures
            final(self).wf(),
            final(self).swarm_spec() == (SwarmMetrics {
                total_tasks: (old(self).swarm_spec().total_tasks + 1) as u64,
                successful_tasks: (old(self).swarm_spec().successful_tasks + if success { 1int } else { 0 }) as u64,
                failed_tasks: (old(self).swarm_spec().failed_tasks + if success { 0int } else { 1 }) as u64,
                divergent_tasks: (old(self).swarm_spec().divergent_tasks + if divergent { 1int } else { 0 }) as u64,
                ..old(self).swarm_spec()
            }),
            final(self).validators_spec().dom() == old(self).validators_spec().dom().insert(validator_id@),
            forall|k: Seq<char>| k != validator_id@ && #[trigger] old(self).validators_spec().contains_key(k) ==> final(self).validators_spec()[k] == old(self).validators_spec()[k],
            ({
                let before = old(self).validators_spec();
                let known = before.contains_key(validator_id@);
                let v = final(self).validators_spec()[validator_id@];
                &&& v.validator_id@ == validator_id@
                &&& v.tasks_completed == (if known { before[validator_id@].tasks_completed } else { 0 }) + 1
                &&& v.tasks_failed == (if known { before[validator_id@].tasks_failed } else { 0 }) + if success { 0int } else { 1 }
                &&& v.divergences == (if known { before[validator_id@].divergences } else { 0 }) + if divergent { 1int } else { 0 }
                &&& v.last_task_at == Some(now)
                &&& v.total_latency_ms == saturated((if known { before[validator_id@].total_latency_ms } else { 0 }) + latency_ms)
                &&& v.stake == (if known { before[validator_id@].stake } else { 0 })
            }),
            final(self).latencies_spec() == latencies_after(old(self).latencies_spec(), latency_ms),
            final(self).counters_spec() == counters_after_task(old(self).counters_spec(), success, divergent),
    {
        self.swarm.total_tasks = self.swarm.total_tasks + 1;
        if success {
            self.swarm.successful_tasks = self.swarm.successful_tasks + 1;
        } else {
            self.swarm.failed_tasks = self.swarm.failed_tasks + 1;
        }
        if divergent {
            self.swarm.divergent_tasks = self.swarm.divergent_tasks + 1;
        }
        let (completed, failed, divergences, total_latency, stake) = match self.validators.get(validator_id) {
            Some(m) => (m.tasks_completed, m.tasks_failed, m.divergences, m.total_latency_ms, m.stake),
            None => (0, 0, 0, 0, 0),
        };
        let entry = ValidatorMetrics {
            validator_id: owned(validator_id),
            tasks_completed: completed + 1,
            tasks_failed: if success { failed } else { failed + 1 },
            divergences: if divergent { divergences + 1 } else { divergences },
            last_task_at: Some(now),
            total_latency_ms: total_latency.saturating_add(latency_ms),
            stake,
        };
        let ghost before = self.validators@;
        self.validators.insert(owned(validator_id), entry);
        proof {
            assert forall|k: Seq<char>| #[trigger] self.validators@.contains_key(k) implies {
                let v = self.validators@[k];
                &&& v.validator_id@ == k
                &&& v.tasks_completed <= self.swarm.total_tasks
                &&& v.tasks_failed <= v.tasks_completed
                &&& v.divergences <= v.tasks_completed
            } by {
                if k != validator_id@ {
                    assert(before.contains_key(k));
                }
            }
        }
        let ghost lat_before = self.latencies@;
        self.latencies.push(latency_ms);
        if self.latencies.len() > 10000 {
            let rest = self.latencies.split_off(1000);
            self.latencies = rest;
        }
        assert(self.latencies@ =~= latencies_after(lat_before, latency_ms));
        self.increment("tasks_total", 1);
        if success {
            self.increment("tasks_success", 1);
        } else {
            self.increment("tasks_failed", 1);
        }
        if divergent {
            self.increment("tasks_divergent", 1);
        }
    }

    /// Records a fall back to the CPU.
    pub fn record_cpu_fallback(&mut self)
        requires
            old(self).wf(),
            old(self).swarm_spec().cpu_fallbacks < u64::MAX,
        ensures
            final(self).wf(),
            final(self).counters_spec() == incremented(old(self).counters_spec(), "cpu_fallbacks"@, 1),
            final(self).swarm_spec() == (SwarmMetrics {
                cpu_fallbacks: (old(self).swarm_spec().cpu_fallbacks + 1) as u64,
                ..old(self).swarm_spec()
            }),
            final(self).validators_spec() == old(self).validators_spec(),
            final(self).latencies_spec() == old(self).latencies_spec(),
    {
        self.increment("cpu_fallbacks", 1);
        self.swarm.cpu_fallbacks = self.swarm.cpu_fallbacks + 1;
    }

    /// The swarm-wide counts.
    pub fn get_swarm_metrics(&self) -> (m: SwarmMetrics)
        ensures
            m == self.swarm_spec(),
    {
        self.swarm
    }

    /// The metrics of a validator.
    pub fn get_validator_metrics(&self, validator_id: &str) -> (r: Option<&ValidatorMetrics>)
        requires
            self.wf(),
        ensures
            match r {
                Some(v) => self.validators_spec().contains_key(validator_id@) && *v == self.validators_spec()[validator_id@],
                None => !self.validators_spec().contains_key(validator_id@),
            },
    {
        self.validators.get(validator_id)
    }

    /// The metrics of every validator, each once, in no particular order.
    pub fn get_all_validator_metrics(&self) -> (v: &Vec<(String, ValidatorMetrics)>)
        requires
            self.wf(),
        ensures
            crate::strmap::map_of(v@) == self.validators_spec(),
            crate::strmap::keys_of(v@).no_duplicates(),
    {
        self.validators.entries()
    }

    /// Every counter, each once, in no particular order.
    pub fn counter_entries(&self) -> (v: &Vec<(String, u64)>)
        requires
            self.wf(),
        ensures
            crate::strmap::map_of(v@) == self.counters_spec(),
            crate::strmap::keys_of(v@).no_duplicates(),
    {
        self.counters.entries()
    }

    /// The recent latencies, oldest first.
    pub fn latencies(&self) -> (l: &Vec<u64>)
        ensures
            l@ == self.latencies_spec(),
    {
        &self.latencies
    }

    /// Sets the validator counts.
    pub fn update_validator_count(&mut self, total: u64, active: u64, quarantined: u64)
        requires
            old(self).wf(),
        ensures
            final(self).wf(),
            final(self).swarm_spec() == (SwarmMetrics {
                total_validators: total,
                active_validators: active,
                quarantined_validators: quarantined,
                ..old(self).swarm_spec()
            }),
            final(self).validators_spec() == old(self).validators_spec(),
            final(self).counters_spec() == old(self).counters_spec(),
            final(self).latencies_spec() == old(self).latencies_spec(),
    {
        self.swarm.total_validators = total;
        self.swarm.active_validators = active;
        self.swarm.quarantined_validators = quarantined;
    }

    /// Clears everything recorded.
    pub fn reset(&mut self)
        ensures
            final(self).wf(),
            final(self).swarm_spec() == SwarmMetrics::zero_spec(),
            final(self).validators_spec() == Map::<Seq<char>, ValidatorMetrics>::empty(),
            final(self).counters_spec() == Map::<Seq<char>, u64>::empty(),
            final(self).latencies_spec().len() == 0,
    {
        self.swarm = SwarmMetrics::zero();
        self.validators = StrMap::new();
        self.counters = StrMap::new();
        self.latencies = Vec::new();
    }
}

impl SwarmMetrics {
    /// All counts zero.
    pub open spec fn zero_spec() -> SwarmMetrics {
        SwarmMetrics {
            total_validators: 0,
            active_validators: 0,
            quarantined_validators: 0,
            total_tasks: 0,
            successful_tasks: 0,
            failed_tasks: 0,
            divergent_tasks: 0,
            cpu_fallbacks: 0,
        }
    }
}


/// What every well-formed collector keeps: each recorded task counts as a
/// success or a failure, divergences are among the tasks, and no validator
/// has more tasks than the swarm, nor more failures or divergences than
/// tasks.
pub proof fn lemma_task_counts_consistent(m: &MetricsCollector)
    requires
        m.wf(),
    ensures
        m.swarm_spec().successful_tasks + m.swarm_spec().failed_tasks == m.swarm_spec().total_tasks,
        m.swarm_spec().divergent_tasks <= m.swarm_spec().total_tasks,
        forall|k: Seq<char>| #[trigger] m.validators_spec().contains_key(k) ==> {
            &&& m.validators_spec()[k].tasks_completed <= m.swarm_spec().total_tasks
            &&& m.validators_spec()[k].tasks_failed <= m.validators_spec()[k].tasks_completed
            &&& m.validators_spec()[k].divergences <= m.validators_spec()[k].tasks_completed
        },
        m.latencies_spec().len() <= latency_window(),
{
}

} // verus!
