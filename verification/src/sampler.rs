//! Two cadences in one loop: a cheap channel that is sampled on every tick
//! and an expensive one that is sampled on every Nth tick and reused in
//! between.

use crate::aggregate::{aggregate, same_value, zone_mean, SensorReading, ValidRange};
use crate::power::{all_or_zero, or_zero, residual, residual_of_readings};
use crate::work::{summarize, summary_of, WorkSummary, WorkUnit};
use crate::zone::{ClassificationTable, Rule, Zone};
use vstd::prelude::*;

verus! {

/// The number of ticks from one sampling of the slow channel to the next
/// that is used where none is configured.
pub const DEFAULT_SLOW_PERIOD: u32 = 5;

/// The milliseconds from one tick to the next that are used where none are
/// configured.
pub const DEFAULT_TICK_MS: u64 = 1000;

/// What the cheap channel gives on one tick.
#[derive(Clone, Copy, Debug, PartialEq, Eq, Structural)]
pub struct FastMetrics {
    pub cpu_temp: Option<i64>,
    pub gpu_temp: Option<i64>,
    pub mem_temp: Option<i64>,
    pub ssd_temp: Option<i64>,
    pub bat_temp: Option<i64>,
    /// The total power in milliwatts, where it could be read.
    pub total_power: Option<i64>,
    /// The power in milliwatts that no component accounts for.
    pub residual_power: i128,
}

/// What the expensive channel gives when it is sampled.
#[derive(Clone, Debug, PartialEq, Eq)]
pub struct SlowMetrics {
    pub battery_pct: i32,
    pub charging: bool,
    pub mem_free_pct: i32,
    pub cpu_mw: i32,
    pub gpu_mw: i32,
    pub ane_mw: i32,
    /// Wakeups per second over all work units, in thousandths.
    pub wakeups: i128,
    pub top_cpu: Vec<WorkUnit>,
    pub high_wakeups: Vec<WorkUnit>,
}

/// The output of one tick.
#[derive(Clone, Debug, PartialEq, Eq)]
pub struct CompositeRecord {
    /// Always of this tick.
    pub fast: FastMetrics,
    /// Of the last tick on which the slow channel was sampled with success.
    pub slow: SlowMetrics,
    /// The slow fields were replaced on this tick.
    pub slow_fresh: bool,
}

/// Why a sampler was refused.
#[derive(Clone, Copy, Debug, PartialEq, Eq, Structural)]
pub enum CadenceError {
    /// The slow channel cannot be sampled every zeroth tick.
    ZeroPeriod,
}

/// What the loop is to do after a tick.
#[derive(Clone, Copy, Debug, PartialEq, Eq, Structural)]
pub enum NextStep {
    /// Wait this many milliseconds, then tick again.
    Wait(u64),
    /// The one record that was asked for is out: stop.
    Stop,
}

/// A sampler as the contracts see it.
pub struct Cadence {
    /// The slow channel is due on every `period`th tick.
    pub period: int,
    /// The number of ticks since the slow channel was last due.
    pub phase: int,
    /// The milliseconds from one tick to the next.
    pub tick_ms: u64,
    /// The loop ends after one tick.
    pub single_shot: bool,
    /// The record of the last tick.
    pub latest: CompositeRecord,
}

/// The fast metrics of a sampler that has not ticked yet.
pub open spec fn no_fast_metrics() -> FastMetrics {
    FastMetrics {
        cpu_temp: None,
        gpu_temp: None,
        mem_temp: None,
        ssd_temp: None,
        bat_temp: None,
        total_power: None,
        residual_power: 0,
    }
}

impl SlowMetrics {
    /// These are the slow metrics of a sampler before the slow channel
    /// was sampled: all zero, not charging, no work units.
    pub open spec fn is_blank(self) -> bool {
        &&& self.battery_pct == 0
        &&& !self.charging
        &&& self.mem_free_pct == 0
        &&& self.cpu_mw == 0
        &&& self.gpu_mw == 0
        &&& self.ane_mw == 0
        &&& self.wakeups == 0
        &&& self.top_cpu@.len() == 0
        &&& self.high_wakeups@.len() == 0
    }

    /// The slow metrics of one sample: the figures as they were read, and
    /// of the work units their summary.
    pub fn assemble(
        battery_pct: i32,
        charging: bool,
        mem_free_pct: i32,
        cpu_mw: i32,
        gpu_mw: i32,
        ane_mw: i32,
        units: &[WorkUnit],
    ) -> (slow: SlowMetrics)
        ensures
            slow.battery_pct == battery_pct,
            slow.charging == charging,
            slow.mem_free_pct == mem_free_pct,
            slow.cpu_mw == cpu_mw,
            slow.gpu_mw == gpu_mw,
            slow.ane_mw == ane_mw,
            summary_of(
                units@,
                (WorkSummary {
                    wakeups: slow.wakeups,
                    top_cpu: slow.top_cpu,
                    high_wakeups: slow.high_wakeups,
                }),
            ),
    {
        let summary = summarize(units);
        SlowMetrics {
            battery_pct,
            charging,
            mem_free_pct,
            cpu_mw,
            gpu_mw,
            ane_mw,
            wakeups: summary.wakeups,
            top_cpu: summary.top_cpu,
            high_wakeups: summary.high_wakeups,
        }
    }

    /// The slow metrics of a sampler before the slow channel was sampled.
    pub fn blank() -> (slow: SlowMetrics)
        ensures
            slow.is_blank(),
    {
        SlowMetrics {
            battery_pct: 0,
            charging: false,
            mem_free_pct: 0,
            cpu_mw: 0,
            gpu_mw: 0,
            ane_mw: 0,
            wakeups: 0,
            top_cpu: Vec::new(),
            high_wakeups: Vec::new(),
        }
    }
}

impl Cadence {
    /// The period is positive and the phase lies within it.
    pub open spec fn wf(self) -> bool {
        1 <= self.period && 0 <= self.phase < self.period
    }

    /// The slow channel is to be sampled for the next tick.
    pub open spec fn slow_due(self) -> bool {
        self.phase == 0
    }

    /// The slow fields are replaced on the next tick if this is offered.
    pub open spec fn replaces(self, offered: Option<SlowMetrics>) -> bool {
        self.slow_due() && offered is Some
    }

    /// The sampler after a tick with these fast metrics and, where the
    /// slow channel was sampled with success, its result.
    pub open spec fn tick(self, fast: FastMetrics, offered: Option<SlowMetrics>) -> Cadence {
        Cadence {
            period: self.period,
            tick_ms: self.tick_ms,
            single_shot: self.single_shot,
            phase: if self.phase + 1 == self.period {
                0
            } else {
                self.phase + 1
            },
            latest: CompositeRecord {
                fast,
                slow: if self.replaces(offered) {
                    offered->0
                } else {
                    self.latest.slow
                },
                slow_fresh: self.replaces(offered),
            },
        }
    }

    /// What the loop is to do after any tick of this sampler.
    pub open spec fn next_step(self) -> NextStep {
        if self.single_shot {
            NextStep::Stop
        } else {
            NextStep::Wait(self.tick_ms)
        }
    }

    /// The sampler after one tick for each of `inputs`, in their order.
    pub open spec fn run(self, inputs: Seq<(FastMetrics, Option<SlowMetrics>)>) -> Cadence
        decreases inputs.len(),
    {
        if inputs.len() == 0 {
            self
        } else {
            self.run(inputs.drop_last()).tick(inputs.last().0, inputs.last().1)
        }
    }
}

/// A tick keeps a sampler valid.
pub proof fn lemma_tick_wf(cadence: Cadence, fast: FastMetrics, offered: Option<SlowMetrics>)
    requires
        cadence.wf(),
    ensures
        cadence.tick(fast, offered).wf(),
        cadence.tick(fast, offered).period == cadence.period,
        cadence.tick(fast, offered).next_step() == cadence.next_step(),
        cadence.tick(fast, offered).latest.fast == fast,
{
}

/// Between two ticks on which the slow channel is due, the slow fields
/// stay as they are, whatever is offered: from a tick on which it is not
/// due up to the tick before the next on which it is, every record holds
/// the slow fields of the record before, and after exactly those ticks the
/// slow channel is due again.
pub proof fn lemma_slow_held_until_due(
    cadence: Cadence,
    inputs: Seq<(FastMetrics, Option<SlowMetrics>)>,
)
    requires
        cadence.wf(),
        !cadence.slow_due(),
        inputs.len() <= cadence.period - cadence.phase,
    ensures
        cadence.run(inputs).wf(),
        cadence.run(inputs).period == cadence.period,
        cadence.run(inputs).latest.slow == cadence.latest.slow,
        inputs.len() > 0 ==> !cadence.run(inputs).latest.slow_fresh,
        cadence.run(inputs).phase == if cadence.phase + inputs.len() == cadence.period {
            0
        } else {
            cadence.phase + inputs.len()
        },
        inputs.len() == cadence.period - cadence.phase <==> cadence.run(inputs).slow_due(),
    decreases inputs.len(),
{
    if inputs.len() > 0 {
        lemma_slow_held_until_due(cadence, inputs.drop_last());
    }
}

/// The slow fields of one window: after the tick on which the slow
/// channel was due, each of the following ticks up to the next due one
/// gives a record with the slow fields of that first tick.
pub proof fn lemma_window_shares_slow(
    cadence: Cadence,
    first: (FastMetrics, Option<SlowMetrics>),
    inputs: Seq<(FastMetrics, Option<SlowMetrics>)>,
)
    requires
        cadence.wf(),
        cadence.slow_due(),
        inputs.len() <= cadence.period - 1,
    ensures
        cadence.tick(first.0, first.1).run(inputs).latest.slow == cadence.tick(
            first.0,
            first.1,
        ).latest.slow,
        first.1 matches Some(slow) ==> cadence.tick(first.0, first.1).run(inputs).latest.slow
            == slow,
{
    let started = cadence.tick(first.0, first.1);
    if cadence.period == 1 {
        assert(inputs.len() == 0);
    } else {
        lemma_slow_held_until_due(started, inputs);
    }
}

/// The loop of two cadences: it takes the fast metrics of each tick, asks
/// for the slow ones on every `period`th tick, and keeps the record of the
/// last tick.
#[derive(Debug)]
pub struct Sampler {
    period: u32,
    phase: u32,
    tick_ms: u64,
    single_shot: bool,
    latest: CompositeRecord,
}

impl View for Sampler {
    type V = Cadence;

    closed spec fn view(&self) -> Cadence {
        Cadence {
            period: self.period as int,
            phase: self.phase as int,
            tick_ms: self.tick_ms,
            single_shot: self.single_shot,
            latest: self.latest,
        }
    }
}

impl Sampler {
    #[verifier::type_invariant]
    spec fn inv(self) -> bool {
        1 <= self.period && self.phase < self.period
    }

    /// The record of a sampler that has not ticked yet.
    fn blank_record() -> (latest: CompositeRecord)
        ensures
            latest.fast == no_fast_metrics(),
            latest.slow.is_blank(),
            !latest.slow_fresh,
    {
        CompositeRecord {
            fast: FastMetrics {
                cpu_temp: None,
                gpu_temp: None,
                mem_temp: None,
                ssd_temp: None,
                bat_temp: None,
                total_power: None,
                residual_power: 0,
            },
            slow: SlowMetrics::blank(),
            slow_fresh: false,
        }
    }

    /// A sampler for a loop without end that ticks every `tick_ms`
    /// milliseconds and has the slow channel sampled on the first tick and
    /// on every `period`th tick after it. A period of zero is refused.
    pub fn new(period: u32, tick_ms: u64) -> (result: Result<Sampler, CadenceError>)
        ensures
            period == 0 <==> result == Err::<Sampler, CadenceError>(CadenceError::ZeroPeriod),
            period >= 1 <==> result is Ok,
            result matches Ok(sampler) ==> {
                &&& sampler@.wf()
                &&& sampler@.period == period
                &&& sampler@.phase == 0
                &&& sampler@.tick_ms == tick_ms
                &&& !sampler@.single_shot
                &&& sampler@.latest.fast == no_fast_metrics()
                &&& sampler@.latest.slow.is_blank()
                &&& !sampler@.latest.slow_fresh
            },
    {
        if period == 0 {
            return Err(CadenceError::ZeroPeriod);
        }
        Ok(Sampler { period, phase: 0, tick_ms, single_shot: false, latest: Self::blank_record() })
    }

    /// A sampler for one record: both channels are sampled on its one
    /// tick, after which the loop is to stop.
    pub fn single_shot() -> (sampler: Sampler)
        ensures
            sampler@.wf(),
            sampler@.period == 1,
            sampler@.phase == 0,
            sampler@.single_shot,
            sampler@.next_step() == NextStep::Stop,
            sampler@.latest.fast == no_fast_metrics(),
            sampler@.latest.slow.is_blank(),
            !sampler@.latest.slow_fresh,
    {
        Sampler { period: 1, phase: 0, tick_ms: 0, single_shot: true, latest: Self::blank_record() }
    }

    /// The slow channel is to be sampled for the next tick.
    pub fn slow_due(&self) -> (due: bool)
        ensures
            due == self@.slow_due(),
            self@.wf(),
    {
        proof {
            use_type_invariant(self);
        }
        self.phase == 0
    }

    /// The number of ticks from one sampling of the slow channel to the
    /// next.
    pub fn period(&self) -> (period: u32)
        ensures
            period == self@.period,
    {
        self.period
    }

    /// The record of the last tick.
    pub fn latest(&self) -> (record: &CompositeRecord)
        ensures
            *record == self@.latest,
    {
        &self.latest
    }

    /// One tick. The fast fields of the record are those given. The slow
    /// fields are replaced by `offered` if the slow channel was due and
    /// gave something; otherwise they stay as they were, so a sample that
    /// was not due, or one that failed, leaves the last good values in
    /// place. The result says whether the loop goes on, and after what
    /// wait.
    pub fn tick(&mut self, fast: FastMetrics, offered: Option<SlowMetrics>) -> (next: NextStep)
        ensures
            final(self)@ == old(self)@.tick(fast, offered),
            final(self)@.wf(),
            next == old(self)@.next_step(),
    {
        proof {
            use_type_invariant(&*self);
        }
        let due: bool = self.phase == 0;
        self.latest.fast = fast;
        self.latest.slow_fresh = false;
        if due {
            match offered {
                Some(slow) => {
                    self.latest.slow = slow;
                    self.latest.slow_fresh = true;
                },
                None => {},
            }
        }
        self.phase = if self.phase + 1 == self.period {
            0
        } else {
            self.phase + 1
        };
        if self.single_shot {
            NextStep::Stop
        } else {
            NextStep::Wait(self.tick_ms)
        }
    }
}

/// The zone means and the residual power of one poll, as the fast channel
/// reports them.
pub open spec fn fast_of(
    rules: Seq<Rule>,
    readings: Seq<SensorReading>,
    range: ValidRange,
    total_power: Option<i64>,
    components: Seq<Option<i64>>,
    fast: FastMetrics,
) -> bool {
    &&& same_value(fast.cpu_temp, zone_mean(rules, Zone::Cpu, readings, range))
    &&& same_value(fast.gpu_temp, zone_mean(rules, Zone::Gpu, readings, range))
    &&& same_value(fast.mem_temp, zone_mean(rules, Zone::Memory, readings, range))
    &&& same_value(fast.ssd_temp, zone_mean(rules, Zone::Storage, readings, range))
    &&& same_value(fast.bat_temp, zone_mean(rules, Zone::Battery, readings, range))
    &&& fast.total_power == total_power
    &&& fast.residual_power == residual(or_zero(total_power) as int, all_or_zero(components))
}

/// The fast channel of one tick: the mean of each zone over the readings
/// that `range` admits, the total power as it was read, and what is left
/// of it after the components. A reading that is missing counts as zero
/// power.
pub fn fast_metrics(
    table: &ClassificationTable,
    readings: &[SensorReading],
    range: ValidRange,
    total_power: Option<i64>,
    components: &[Option<i64>],
) -> (fast: FastMetrics)
    ensures
        fast_of(table@, readings@, range, total_power, components@, fast),
{
    FastMetrics {
        cpu_temp: aggregate(table, Zone::Cpu, readings, range),
        gpu_temp: aggregate(table, Zone::Gpu, readings, range),
        mem_temp: aggregate(table, Zone::Memory, readings, range),
        ssd_temp: aggregate(table, Zone::Storage, readings, range),
        bat_temp: aggregate(table, Zone::Battery, readings, range),
        total_power,
        residual_power: residual_of_readings(total_power, components),
    }
}

} // verus!
