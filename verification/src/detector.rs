//! Exponential smoothing of one signal and the detection of significant
//! changes against a reference value.
//!
//! The smoothing weight is given in thousandths. A smoothing step rounds
//! toward the new sample, so that a constant input is reached after
//! finitely many samples.

use vstd::arithmetic::power::{lemma_pow_positive, pow};
use vstd::prelude::*;

verus! {

/// The weight of the newest sample that is used where none is configured,
/// in thousandths.
pub const DEFAULT_ALPHA_PER_MILLE: u16 = 200;

/// The least reference value that is used where none is configured.
pub const DEFAULT_FLOOR: i64 = 100;

/// How far the smoothed value is from the reference is measured.
#[derive(Clone, Copy, Debug, PartialEq, Eq, Structural)]
pub enum DeviationMode {
    /// The distance itself, in the unit of the signal.
    Absolute,
    /// The distance in thousandths of the reference, rounded down.
    Relative,
}

/// The direction of a change.
#[derive(Clone, Copy, Debug, PartialEq, Eq, Structural)]
pub enum ChangeKind {
    Rise,
    Fall,
}

/// Why a configuration was refused.
#[derive(Clone, Copy, Debug, PartialEq, Eq, Structural)]
pub enum ConfigError {
    /// The smoothing weight is zero or more than one thousand.
    AlphaOutOfRange,
    /// The floor of the reference is below one.
    FloorNotPositive,
    /// The sample interval is zero.
    ZeroInterval,
}

/// A significant change of the signal.
#[derive(Clone, Copy, Debug, PartialEq, Eq, Structural)]
pub struct ChangeEvent {
    pub kind: ChangeKind,
    /// How far the smoothed value was from the reference.
    pub deviation: u128,
    /// The measure in which `deviation` is given.
    pub unit: DeviationMode,
    /// The smoothed value at the change.
    pub value: i64,
}

/// What one sample led to, and how long to wait for the next.
#[derive(Clone, Copy, Debug, PartialEq, Eq, Structural)]
pub struct StepOutcome {
    pub event: Option<ChangeEvent>,
    /// The reference was moved to the smoothed value after a quiet period,
    /// without an event.
    pub rebaselined: bool,
    /// Milliseconds until the next sample is to be taken: the sample
    /// interval, and after an event the cooldown on top of it.
    pub wait_ms: u64,
}

/// The configuration of a detector as the contracts see it.
pub struct Tuning {
    /// The weight of the newest sample, in thousandths.
    pub alpha: int,
    pub mode: DeviationMode,
    /// An event fires when the deviation is greater than this.
    pub threshold: int,
    /// The reference is never set below this.
    pub floor: int,
    /// After more quiet samples in a row than this the reference follows
    /// the smoothed value.
    pub quiet_limit: int,
    pub interval_ms: int,
    pub cooldown_ms: int,
}

/// The state of a detector as the contracts see it.
pub struct Signal {
    pub smoothed: int,
    pub last_stable: int,
    pub quiet: int,
}

/// The distance between two values.
pub open spec fn distance(a: int, b: int) -> int {
    if a >= b {
        a - b
    } else {
        b - a
    }
}

/// How far one smoothing step moves toward a sample that is `gap` away:
/// `alpha` thousandths of the gap, rounded up.
pub open spec fn stride(gap: int, alpha: int) -> int {
    (alpha * gap + 999) / 1000
}

/// The smoothed value after one more sample: `alpha` thousandths of `raw`
/// and the rest of `prev`, rounded toward `raw`.
pub open spec fn ema(prev: int, raw: int, alpha: int) -> int {
    if raw >= prev {
        prev + stride(raw - prev, alpha)
    } else {
        prev - stride(prev - raw, alpha)
    }
}

/// A value that may become the reference: never below the floor.
pub open spec fn guarded(value: int, floor: int) -> int {
    if value < floor {
        floor
    } else {
        value
    }
}

/// How far `smoothed` is from the reference, in the measure of `mode`.
pub open spec fn deviation(mode: DeviationMode, smoothed: int, last_stable: int) -> int {
    match mode {
        DeviationMode::Absolute => distance(smoothed, last_stable),
        DeviationMode::Relative => distance(smoothed, last_stable) * 1000 / last_stable,
    }
}

/// The number of quiet samples that make about one second at this
/// interval.
pub open spec fn quiet_limit_for(interval_ms: int) -> int {
    1000int / interval_ms
}

impl Tuning {
    /// The configuration is one that `DetectorConfig::new` accepts.
    pub open spec fn wf(self) -> bool {
        &&& 1 <= self.alpha <= 1000
        &&& 0 <= self.threshold
        &&& 1 <= self.floor
        &&& 1 <= self.interval_ms
        &&& 0 <= self.cooldown_ms
        &&& self.quiet_limit == quiet_limit_for(self.interval_ms)
    }
}

impl Signal {
    /// The reference is at or above the floor and the quiet counter has
    /// not passed its limit.
    pub open spec fn wf(self, tuning: Tuning) -> bool {
        &&& tuning.floor <= self.last_stable
        &&& 0 <= self.quiet <= tuning.quiet_limit
    }
}

/// The state that the first sample gives: the sample as the smoothed
/// value, and as the reference as far as the floor allows.
pub open spec fn initial(tuning: Tuning, first: int) -> Signal {
    Signal { smoothed: first, last_stable: guarded(first, tuning.floor), quiet: 0 }
}

/// The sample `raw` makes an event fire: the smoothed value that it gives
/// deviates from the reference by more than the threshold.
pub open spec fn fires(tuning: Tuning, signal: Signal, raw: int) -> bool {
    deviation(tuning.mode, ema(signal.smoothed, raw, tuning.alpha), signal.last_stable)
        > tuning.threshold
}

/// The sample `raw` ends a quiet period: no event fires and the quiet
/// counter would pass its limit.
pub open spec fn rebaselines(tuning: Tuning, signal: Signal, raw: int) -> bool {
    !fires(tuning, signal, raw) && signal.quiet + 1 > tuning.quiet_limit
}

/// The state after the sample `raw`.
pub open spec fn advance(tuning: Tuning, signal: Signal, raw: int) -> Signal {
    let smoothed = ema(signal.smoothed, raw, tuning.alpha);
    if fires(tuning, signal, raw) || rebaselines(tuning, signal, raw) {
        Signal { smoothed, last_stable: guarded(smoothed, tuning.floor), quiet: 0 }
    } else {
        Signal { smoothed, last_stable: signal.last_stable, quiet: signal.quiet + 1 }
    }
}

/// The event that the sample `raw` fires, if it fires one.
pub open spec fn event_of(tuning: Tuning, signal: Signal, raw: int) -> Option<ChangeEvent> {
    let smoothed = ema(signal.smoothed, raw, tuning.alpha);
    if fires(tuning, signal, raw) {
        Some(
            ChangeEvent {
                kind: if smoothed >= signal.last_stable {
                    ChangeKind::Rise
                } else {
                    ChangeKind::Fall
                },
                deviation: deviation(tuning.mode, smoothed, signal.last_stable) as u128,
                unit: tuning.mode,
                value: smoothed as i64,
            },
        )
    } else {
        None
    }
}

/// The wait after the sample `raw`.
pub open spec fn wait_after(tuning: Tuning, signal: Signal, raw: int) -> int {
    if fires(tuning, signal, raw) {
        tuning.interval_ms + tuning.cooldown_ms
    } else {
        tuning.interval_ms
    }
}

/// The state after `count` samples that are all `raw`.
pub open spec fn advance_constant(tuning: Tuning, signal: Signal, raw: int, count: nat) -> Signal
    decreases count,
{
    if count == 0 {
        signal
    } else {
        advance(tuning, advance_constant(tuning, signal, raw, (count - 1) as nat), raw)
    }
}

/// What is left of a gap after one smoothing step.
pub open spec fn remaining(gap: int, alpha: int) -> int {
    gap - stride(gap, alpha)
}

/// The number of samples of a constant input after which a gap is closed.
pub open spec fn samples_to_settle(gap: nat, alpha: int) -> nat
    decreases gap,
    when 1 <= alpha <= 1000
    via samples_to_settle_decreases
{
    if gap == 0 {
        0
    } else {
        1 + samples_to_settle(remaining(gap as int, alpha) as nat, alpha)
    }
}

#[via_fn]
proof fn samples_to_settle_decreases(gap: nat, alpha: int) {
    if gap != 0 {
        lemma_stride(gap as int, alpha);
    }
}

/// One stride covers at least one unit of a gap and at most all of it, and
/// leaves at most the share of the gap that the old value keeps.
pub proof fn lemma_stride(gap: int, alpha: int)
    requires
        gap >= 0,
        1 <= alpha <= 1000,
    ensures
        gap > 0 ==> 1 <= stride(gap, alpha),
        stride(gap, alpha) <= gap,
        gap == 0 ==> stride(gap, alpha) == 0,
        alpha == 1000 ==> stride(gap, alpha) == gap,
        0 <= remaining(gap, alpha),
        gap > 0 ==> remaining(gap, alpha) < gap,
        remaining(gap, alpha) * 1000 <= (1000 - alpha) * gap,
{
    let p: int = alpha * gap;
    assert(0 <= p <= 1000 * gap) by (nonlinear_arith)
        requires
            p == alpha * gap,
            gap >= 0,
            1 <= alpha <= 1000,
    ;
    assert(gap > 0 ==> p >= 1) by (nonlinear_arith)
        requires
            p == alpha * gap,
            gap >= 0,
            1 <= alpha <= 1000,
    ;
    assert(alpha == 1000 ==> p == 1000 * gap);
    let s: int = (p + 999) / 1000;
    assert(s == stride(gap, alpha));
    assert(s * 1000 >= p);
    assert((1000 - alpha) * gap == 1000 * gap - p) by (nonlinear_arith)
        requires
            p == alpha * gap,
    ;
}

/// A smoothing step ends between the old value and the sample, closer to
/// the sample by one stride; on the sample it stays.
pub proof fn lemma_ema(prev: int, raw: int, alpha: int)
    requires
        1 <= alpha <= 1000,
    ensures
        prev <= raw ==> prev <= ema(prev, raw, alpha) <= raw,
        raw <= prev ==> raw <= ema(prev, raw, alpha) <= prev,
        ema(raw, raw, alpha) == raw,
        distance(ema(prev, raw, alpha), raw) == remaining(distance(prev, raw), alpha),
        prev != raw ==> distance(ema(prev, raw, alpha), raw) < distance(prev, raw),
{
    lemma_stride(distance(prev, raw), alpha);
    lemma_stride(0, alpha);
}

/// A step keeps a valid state valid, whatever the sample.
pub proof fn lemma_advance_wf(tuning: Tuning, signal: Signal, raw: int)
    requires
        tuning.wf(),
        signal.wf(tuning),
    ensures
        advance(tuning, signal, raw).wf(tuning),
        initial(tuning, raw).wf(tuning),
{
    assert(tuning.quiet_limit >= 0);
}

/// A constant input drives the smoothed value to that input: after
/// `samples_to_settle` samples, a number that depends on the smoothing
/// weight and the first gap alone and is no more than the gap, the
/// smoothed value is the input, and it stays there.
pub proof fn lemma_constant_input_converges(tuning: Tuning, signal: Signal, raw: int, count: nat)
    requires
        tuning.wf(),
        signal.wf(tuning),
    ensures
        advance_constant(tuning, signal, raw, count).wf(tuning),
        distance(advance_constant(tuning, signal, raw, count).smoothed, raw) <= distance(
            signal.smoothed,
            raw,
        ),
        samples_to_settle(distance(signal.smoothed, raw) as nat, tuning.alpha) <= distance(
            signal.smoothed,
            raw,
        ),
        count >= samples_to_settle(distance(signal.smoothed, raw) as nat, tuning.alpha)
            ==> advance_constant(tuning, signal, raw, count).smoothed == raw,
    decreases count,
{
    let gap = distance(signal.smoothed, raw);
    lemma_settle_bound(gap as nat, tuning.alpha);
    if count == 0 {
    } else {
        lemma_advance_constant_front(tuning, signal, raw, count);
        let next = advance(tuning, signal, raw);
        lemma_advance_wf(tuning, signal, raw);
        lemma_ema(signal.smoothed, raw, tuning.alpha);
        lemma_constant_input_converges(tuning, next, raw, (count - 1) as nat);
        if gap == 0 {
            assert(samples_to_settle(0, tuning.alpha) == 0);
        }
    }
}

/// The gap that is left of `gap` after `count` samples of a constant
/// input.
pub open spec fn gap_after(gap: int, alpha: int, count: nat) -> int
    decreases count,
{
    if count == 0 {
        gap
    } else {
        remaining(gap_after(gap, alpha, (count - 1) as nat), alpha)
    }
}

/// The gap to a constant input shrinks at least as fast as the smoothing
/// weight says: after `count` samples no more is left of it than the
/// share `(1000 - alpha) / 1000` of it, taken `count` times.
pub proof fn lemma_gap_shrinks(gap: int, alpha: int, count: nat)
    requires
        gap >= 0,
        1 <= alpha <= 1000,
    ensures
        0 <= gap_after(gap, alpha, count) <= gap,
        gap_after(gap, alpha, count) * pow(1000, count) <= pow(1000 - alpha, count) * gap,
    decreases count,
{
    reveal(pow);
    if count == 0 {
        assert(pow(1000, 0) == 1 && pow(1000 - alpha, 0) == 1);
    } else {
        let before: nat = (count - 1) as nat;
        lemma_gap_shrinks(gap, alpha, before);
        let g = gap_after(gap, alpha, before);
        let left = remaining(g, alpha);
        lemma_stride(g, alpha);
        lemma_pow_positive(1000, before);
        let p = pow(1000, before);
        let q = pow(1000 - alpha, before);
        assert(pow(1000, count) == 1000 * p);
        assert(pow(1000 - alpha, count) == (1000 - alpha) * q);
        assert(left * (1000 * p) <= ((1000 - alpha) * q) * gap) by (nonlinear_arith)
            requires
                left * 1000 <= (1000 - alpha) * g,
                g * p <= q * gap,
                p > 0,
                1000 - alpha >= 0,
        ;
    }
}

/// Under a constant input the gap between the smoothed value and the
/// input is what `gap_after` says, whatever events fire on the way.
pub proof fn lemma_constant_input_gap(tuning: Tuning, signal: Signal, raw: int, count: nat)
    requires
        tuning.wf(),
    ensures
        distance(advance_constant(tuning, signal, raw, count).smoothed, raw) == gap_after(
            distance(signal.smoothed, raw),
            tuning.alpha,
            count,
        ),
    decreases count,
{
    if count > 0 {
        lemma_constant_input_gap(tuning, signal, raw, (count - 1) as nat);
        let before = advance_constant(tuning, signal, raw, (count - 1) as nat);
        lemma_ema(before.smoothed, raw, tuning.alpha);
    }
}

/// The number of samples to settle is no more than the gap.
pub proof fn lemma_settle_bound(gap: nat, alpha: int)
    requires
        1 <= alpha <= 1000,
    ensures
        samples_to_settle(gap, alpha) <= gap,
        alpha == 1000 && gap > 0 ==> samples_to_settle(gap, alpha) == 1,
    decreases gap,
{
    if gap > 0 {
        lemma_stride(gap as int, alpha);
        lemma_settle_bound(remaining(gap as int, alpha) as nat, alpha);
        if alpha == 1000 {
            assert(remaining(gap as int, alpha) == 0);
            assert(samples_to_settle(0, alpha) == 0);
        }
    }
}

/// Taking `count` equal samples is taking one and then the rest.
pub proof fn lemma_advance_constant_front(tuning: Tuning, signal: Signal, raw: int, count: nat)
    requires
        count > 0,
    ensures
        advance_constant(tuning, signal, raw, count) == advance_constant(
            tuning,
            advance(tuning, signal, raw),
            raw,
            (count - 1) as nat,
        ),
    decreases count,
{
    if count > 1 {
        lemma_advance_constant_front(tuning, signal, raw, (count - 1) as nat);
    } else {
        assert(advance_constant(tuning, signal, raw, 0) == signal);
        assert(advance_constant(tuning, advance(tuning, signal, raw), raw, 0) == advance(
            tuning,
            signal,
            raw,
        ));
    }
}

/// Once the smoothed value is the reference and the input stays at that
/// value, no event fires, however many samples follow.
pub proof fn lemma_settled_is_silent(tuning: Tuning, signal: Signal, raw: int, count: nat)
    requires
        tuning.wf(),
        signal.wf(tuning),
        signal.smoothed == signal.last_stable,
        raw == signal.smoothed,
    ensures
        advance_constant(tuning, signal, raw, count).wf(tuning),
        advance_constant(tuning, signal, raw, count).smoothed == raw,
        advance_constant(tuning, signal, raw, count).last_stable == raw,
        !fires(tuning, advance_constant(tuning, signal, raw, count), raw),
        event_of(tuning, advance_constant(tuning, signal, raw, count), raw) is None,
    decreases count,
{
    lemma_ema(raw, raw, tuning.alpha);
    lemma_zero_deviation(tuning.mode, raw);
    if count > 0 {
        lemma_settled_is_silent(tuning, signal, raw, (count - 1) as nat);
        let before = advance_constant(tuning, signal, raw, (count - 1) as nat);
        assert(advance_constant(tuning, signal, raw, count) == advance(tuning, before, raw));
    }
}

/// The state after the samples `raws`, in their order.
pub open spec fn advance_all(tuning: Tuning, signal: Signal, raws: Seq<int>) -> Signal
    decreases raws.len(),
{
    if raws.len() == 0 {
        signal
    } else {
        advance(tuning, advance_all(tuning, signal, raws.drop_last()), raws.last())
    }
}

/// Sample `k` of `raws` neither fires an event nor ends a quiet period.
pub open spec fn passes_quietly(tuning: Tuning, signal: Signal, raws: Seq<int>, k: int) -> bool {
    let before = advance_all(tuning, signal, raws.take(k));
    !fires(tuning, before, raws[k]) && !rebaselines(tuning, before, raws[k])
}

/// No sample is lost: a sample fires an event, or moves the reference at
/// the end of a quiet period, or is counted, and the count has a limit. So
/// among any samples in a row that are more than the quiet limit, whatever
/// their values, at least one fires or moves the reference.
pub proof fn lemma_quiet_period_ends(tuning: Tuning, signal: Signal, raws: Seq<int>)
    requires
        tuning.wf(),
        signal.wf(tuning),
    ensures
        advance_all(tuning, signal, raws).wf(tuning),
        (forall|k: int| 0 <= k < raws.len() ==> passes_quietly(tuning, signal, raws, k))
            ==> advance_all(tuning, signal, raws).quiet == signal.quiet + raws.len()
            && advance_all(tuning, signal, raws).last_stable == signal.last_stable,
        raws.len() > tuning.quiet_limit ==> exists|k: int|
            0 <= k < raws.len() && !passes_quietly(tuning, signal, raws, k),
    decreases raws.len(),
{
    if raws.len() > 0 {
        let front = raws.drop_last();
        let last: int = raws.len() - 1;
        lemma_quiet_period_ends(tuning, signal, front);
        let before = advance_all(tuning, signal, front);
        lemma_advance_wf(tuning, before, raws.last());
        assert(raws.take(last) =~= front);
        assert forall|k: int| 0 <= k < front.len() implies passes_quietly(
            tuning,
            signal,
            front,
            k,
        ) == passes_quietly(tuning, signal, raws, k) by {
            assert(front.take(k) =~= raws.take(k));
        }
        if forall|k: int| 0 <= k < raws.len() ==> passes_quietly(tuning, signal, raws, k) {
            assert(passes_quietly(tuning, signal, raws, last));
            assert forall|k: int| 0 <= k < front.len() implies passes_quietly(
                tuning,
                signal,
                front,
                k,
            ) by {
                assert(passes_quietly(tuning, signal, raws, k));
            }
        }
    }
}

/// A value does not deviate from itself.
pub proof fn lemma_zero_deviation(mode: DeviationMode, value: int)
    requires
        value >= 1,
    ensures
        deviation(mode, value, value) == 0,
{
    assert(0int * 1000 / value == 0) by (nonlinear_arith)
        requires
            value >= 1,
    ;
}

/// The threshold is a strict bound. A sample whose deviation is the
/// threshold fires nothing and leaves the reference where it was unless a
/// quiet period ends. A sample whose deviation is one more fires, and moves
/// the reference to the smoothed value as far as the floor allows.
pub proof fn lemma_threshold_boundary(tuning: Tuning, signal: Signal, raw: int)
    requires
        tuning.wf(),
        signal.wf(tuning),
    ensures
        fires(tuning, signal, raw) <==> deviation(
            tuning.mode,
            ema(signal.smoothed, raw, tuning.alpha),
            signal.last_stable,
        ) >= tuning.threshold + 1,
        deviation(tuning.mode, ema(signal.smoothed, raw, tuning.alpha), signal.last_stable)
            == tuning.threshold ==> event_of(tuning, signal, raw) is None && (rebaselines(
            tuning,
            signal,
            raw,
        ) || advance(tuning, signal, raw).last_stable == signal.last_stable),
        deviation(tuning.mode, ema(signal.smoothed, raw, tuning.alpha), signal.last_stable)
            == tuning.threshold + 1 ==> event_of(tuning, signal, raw) is Some && advance(
            tuning,
            signal,
            raw,
        ).last_stable == guarded(ema(signal.smoothed, raw, tuning.alpha), tuning.floor)
            && advance(tuning, signal, raw).quiet == 0,
{
}

/// An event fires once: where the smoothed value at the event is at or
/// above the floor, it is the new reference, and a next sample at that
/// value fires nothing.
pub proof fn lemma_fires_once(tuning: Tuning, signal: Signal, raw: int)
    requires
        tuning.wf(),
        signal.wf(tuning),
        fires(tuning, signal, raw),
        ema(signal.smoothed, raw, tuning.alpha) >= tuning.floor,
    ensures
        advance(tuning, signal, raw).last_stable == advance(tuning, signal, raw).smoothed,
        !fires(tuning, advance(tuning, signal, raw), advance(tuning, signal, raw).smoothed),
{
    let next = advance(tuning, signal, raw);
    lemma_ema(next.smoothed, next.smoothed, tuning.alpha);
    lemma_zero_deviation(tuning.mode, next.smoothed);
}

/// The settings of one detector. Only `new` makes one, so the smoothing
/// weight is always between one and one thousand thousandths, and the
/// floor and the sample interval are at least one.
#[derive(Clone, Copy, Debug, PartialEq, Eq)]
pub struct DetectorConfig {
    alpha_per_mille: u16,
    mode: DeviationMode,
    threshold: u64,
    floor: i64,
    interval_ms: u32,
    cooldown_ms: u32,
}

impl View for DetectorConfig {
    type V = Tuning;

    closed spec fn view(&self) -> Tuning {
        Tuning {
            alpha: self.alpha_per_mille as int,
            mode: self.mode,
            threshold: self.threshold as int,
            floor: self.floor as int,
            quiet_limit: quiet_limit_for(self.interval_ms as int),
            interval_ms: self.interval_ms as int,
            cooldown_ms: self.cooldown_ms as int,
        }
    }
}

impl DetectorConfig {
    #[verifier::type_invariant]
    spec fn inv(self) -> bool {
        &&& 1 <= self.alpha_per_mille <= 1000
        &&& 1 <= self.floor
        &&& 1 <= self.interval_ms
    }

    /// The settings that these values would make, as the contracts see
    /// them.
    pub open spec fn tuning_of(
        alpha_per_mille: u16,
        mode: DeviationMode,
        threshold: u64,
        floor: i64,
        interval_ms: u32,
        cooldown_ms: u32,
    ) -> Tuning {
        Tuning {
            alpha: alpha_per_mille as int,
            mode,
            threshold: threshold as int,
            floor: floor as int,
            quiet_limit: quiet_limit_for(interval_ms as int),
            interval_ms: interval_ms as int,
            cooldown_ms: cooldown_ms as int,
        }
    }

    /// The settings of a detector. The smoothing weight is in thousandths
    /// and must be from 1 to 1000; the floor of the reference and the
    /// sample interval must be at least 1. The first of these that fails,
    /// in this order, is the error.
    pub fn new(
        alpha_per_mille: u16,
        mode: DeviationMode,
        threshold: u64,
        floor: i64,
        interval_ms: u32,
        cooldown_ms: u32,
    ) -> (result: Result<DetectorConfig, ConfigError>)
        ensures
            alpha_per_mille < 1 || alpha_per_mille > 1000 ==> result == Err::<
                DetectorConfig,
                ConfigError,
            >(ConfigError::AlphaOutOfRange),
            1 <= alpha_per_mille <= 1000 && floor < 1 ==> result == Err::<
                DetectorConfig,
                ConfigError,
            >(ConfigError::FloorNotPositive),
            1 <= alpha_per_mille <= 1000 && floor >= 1 && interval_ms == 0 ==> result == Err::<
                DetectorConfig,
                ConfigError,
            >(ConfigError::ZeroInterval),
            1 <= alpha_per_mille <= 1000 && floor >= 1 && interval_ms >= 1 ==> result is Ok,
            result matches Ok(config) ==> config@ == Self::tuning_of(
                alpha_per_mille,
                mode,
                threshold,
                floor,
                interval_ms,
                cooldown_ms,
            ) && config@.wf(),
    {
        if alpha_per_mille < 1 || alpha_per_mille > 1000 {
            return Err(ConfigError::AlphaOutOfRange);
        }
        if floor < 1 {
            return Err(ConfigError::FloorNotPositive);
        }
        if interval_ms == 0 {
            return Err(ConfigError::ZeroInterval);
        }
        Ok(DetectorConfig { alpha_per_mille, mode, threshold, floor, interval_ms, cooldown_ms })
    }

    /// The weight of the newest sample, in thousandths.
    pub fn alpha_per_mille(&self) -> (alpha: u16)
        ensures
            alpha == self@.alpha,
            self@.wf(),
    {
        proof {
            use_type_invariant(self);
        }
        self.alpha_per_mille
    }

    /// How a deviation is measured.
    pub fn mode(&self) -> (mode: DeviationMode)
        ensures
            mode == self@.mode,
    {
        self.mode
    }

    /// The deviation above which an event fires.
    pub fn threshold(&self) -> (threshold: u64)
        ensures
            threshold == self@.threshold,
    {
        self.threshold
    }

    /// The least value that the reference is set to.
    pub fn floor(&self) -> (floor: i64)
        ensures
            floor == self@.floor,
    {
        self.floor
    }

    /// Milliseconds between two samples.
    pub fn interval_ms(&self) -> (interval: u32)
        ensures
            interval == self@.interval_ms,
    {
        self.interval_ms
    }

    /// Milliseconds added to the interval after an event.
    pub fn cooldown_ms(&self) -> (cooldown: u32)
        ensures
            cooldown == self@.cooldown_ms,
    {
        self.cooldown_ms
    }

    /// The number of quiet samples in a row after which the reference
    /// follows the smoothed value: as many as fit in one second.
    pub fn quiet_limit(&self) -> (limit: u32)
        ensures
            limit == self@.quiet_limit,
            self@.quiet_limit == quiet_limit_for(self@.interval_ms),
    {
        proof {
            use_type_invariant(self);
        }
        1000 / self.interval_ms
    }
}

/// The distance between two values.
pub fn distance_between(a: i64, b: i64) -> (gap: u64)
    ensures
        gap == distance(a as int, b as int),
{
    if a >= b {
        (a as i128 - b as i128) as u64
    } else {
        (b as i128 - a as i128) as u64
    }
}

/// One smoothing step: the new smoothed value is `alpha_per_mille`
/// thousandths of `raw` and the rest of `prev`, rounded toward `raw`.
pub fn smooth(prev: i64, raw: i64, alpha_per_mille: u16) -> (smoothed: i64)
    requires
        1 <= alpha_per_mille <= 1000,
    ensures
        smoothed == ema(prev as int, raw as int, alpha_per_mille as int),
{
    let alpha: u128 = alpha_per_mille as u128;
    let gap: u64 = distance_between(prev, raw);
    proof {
        lemma_stride(gap as int, alpha as int);
        assert(0 <= alpha * gap <= 1000 * gap) by (nonlinear_arith)
            requires
                0 <= alpha <= 1000,
                0 <= gap,
        ;
    }
    let step: u128 = (alpha * gap as u128 + 999) / 1000;
    if raw >= prev {
        (prev as i128 + step as i128) as i64
    } else {
        (prev as i128 - step as i128) as i64
    }
}

/// How far `smoothed` is from the reference `last_stable`: the distance
/// itself, or in thousandths of the reference, rounded down.
pub fn measure_deviation(mode: DeviationMode, smoothed: i64, last_stable: i64) -> (found: u128)
    requires
        mode == DeviationMode::Relative ==> last_stable >= 1,
    ensures
        found == deviation(mode, smoothed as int, last_stable as int),
{
    let gap: u64 = distance_between(smoothed, last_stable);
    match mode {
        DeviationMode::Absolute => gap as u128,
        DeviationMode::Relative => gap as u128 * 1000 / (last_stable as u128),
    }
}

/// The running state of one signal.
#[derive(Clone, Copy, Debug, PartialEq, Eq, Structural)]
pub struct SmoothingState {
    /// The exponential moving average of the samples so far.
    pub smoothed: i64,
    /// The reference that deviations are measured against.
    pub last_stable: i64,
    /// The number of samples in a row that fired no event.
    pub quiet_counter: u32,
}

impl View for SmoothingState {
    type V = Signal;

    open spec fn view(&self) -> Signal {
        Signal {
            smoothed: self.smoothed as int,
            last_stable: self.last_stable as int,
            quiet: self.quiet_counter as int,
        }
    }
}

/// A detector of significant changes in one signal. It is made from the
/// first sample and then takes the samples one by one.
#[derive(Clone, Copy, Debug, PartialEq, Eq)]
pub struct ChangeDetector {
    config: DetectorConfig,
    state: SmoothingState,
}

impl ChangeDetector {
    #[verifier::type_invariant]
    spec fn inv(self) -> bool {
        self.config@.wf() && self.state@.wf(self.config@)
    }

    /// The settings of the detector.
    pub closed spec fn tuning(&self) -> Tuning {
        self.config@
    }

    /// The state of the detector.
    pub closed spec fn signal(&self) -> Signal {
        self.state@
    }

    /// The settings are acceptable and the state is valid under them.
    pub open spec fn valid(&self) -> bool {
        self.tuning().wf() && self.signal().wf(self.tuning())
    }

    /// A detector that starts from `first`: the smoothed value is that
    /// sample and the reference too, as far as the floor allows. No event
    /// belongs to the first sample.
    pub fn new(config: DetectorConfig, first: i64) -> (detector: ChangeDetector)
        ensures
            detector.tuning() == config@,
            detector.signal() == initial(config@, first as int),
            detector.valid(),
    {
        proof {
            use_type_invariant(&config);
        }
        let last_stable: i64 = if first < config.floor {
            config.floor
        } else {
            first
        };
        ChangeDetector {
            config,
            state: SmoothingState { smoothed: first, last_stable, quiet_counter: 0 },
        }
    }

    /// The settings of the detector.
    pub fn config(&self) -> (config: DetectorConfig)
        ensures
            config@ == self.tuning(),
    {
        self.config
    }

    /// The state of the detector.
    pub fn state(&self) -> (state: SmoothingState)
        ensures
            state@ == self.signal(),
            self.valid(),
    {
        proof {
            use_type_invariant(self);
        }
        self.state
    }

    /// Takes one sample. The smoothed value moves toward `raw`. If it then
    /// deviates from the reference by more than the threshold, an event
    /// fires with the deviation and the smoothed value, the reference
    /// moves to the smoothed value and the quiet counter starts again;
    /// the wait is then longer by the cooldown. Otherwise the quiet
    /// counter goes up, and once it would pass its limit the reference
    /// moves to the smoothed value without an event. The reference is
    /// never set below the floor.
    pub fn step(&mut self, raw: i64) -> (outcome: StepOutcome)
        ensures
            final(self).tuning() == old(self).tuning(),
            final(self).signal() == advance(old(self).tuning(), old(self).signal(), raw as int),
            final(self).valid(),
            outcome.event == event_of(old(self).tuning(), old(self).signal(), raw as int),
            outcome.event is Some <==> fires(old(self).tuning(), old(self).signal(), raw as int),
            outcome.rebaselined == rebaselines(
                old(self).tuning(),
                old(self).signal(),
                raw as int,
            ),
            outcome.wait_ms == wait_after(old(self).tuning(), old(self).signal(), raw as int),
    {
        proof {
            use_type_invariant(&*self);
            use_type_invariant(&self.config);
            lemma_ema(self.state.smoothed as int, raw as int, self.config.alpha_per_mille as int);
            lemma_advance_wf(self.config@, self.state@, raw as int);
        }
        let config: DetectorConfig = self.config;
        let before: SmoothingState = self.state;
        let smoothed: i64 = smooth(before.smoothed, raw, config.alpha_per_mille);
        let found: u128 = measure_deviation(config.mode, smoothed, before.last_stable);
        let fired: bool = found > config.threshold as u128;
        let limit: u32 = config.quiet_limit();
        let rebaselined: bool = !fired && before.quiet_counter >= limit;
        let reference: i64 = if smoothed < config.floor {
            config.floor
        } else {
            smoothed
        };
        if fired || rebaselined {
            self.state = SmoothingState { smoothed, last_stable: reference, quiet_counter: 0 };
        } else {
            self.state = SmoothingState {
                smoothed,
                last_stable: before.last_stable,
                quiet_counter: before.quiet_counter + 1,
            };
        }
        let event: Option<ChangeEvent> = if fired {
            Some(
                ChangeEvent {
                    kind: if smoothed >= before.last_stable {
                        ChangeKind::Rise
                    } else {
                        ChangeKind::Fall
                    },
                    deviation: found,
                    unit: config.mode,
                    value: smoothed,
                },
            )
        } else {
            None
        };
        let wait_ms: u64 = if fired {
            config.interval_ms as u64 + config.cooldown_ms as u64
        } else {
            config.interval_ms as u64
        };
        StepOutcome { event, rebaselined, wait_ms }
    }
}

} // verus!
