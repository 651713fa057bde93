//! Frame scheduling with adaptive pipeline depth and safety margins.
//!
//! The [`Scheduler`] converts a [`FrameTick`] and [`PresentHints`] into a
//! [`FramePlan`], adapting its pipeline depth and safety margin based on
//! observed [`PresentFeedback`].
//!
//! The build-cost estimate is an exponential moving average kept in integer
//! ticks. Smoothing factors are fixed-point fractions: `ema_alpha` is in
//! units of [`ALPHA_ONE`] (so `ALPHA_ONE / 5` means one fifth of each new
//! sample), and `safety_multiplier` is in units of [`MULTIPLIER_ONE`]
//! thousandths.

use vstd::prelude::*;

use crate::time::{u64_saturating_add, Duration};
use crate::timing::{FramePlan, FrameTick, PresentFeedback, PresentHints, TimingConfidence};

verus! {

/// Denominator of the fixed-point EMA smoothing factor.
pub const ALPHA_ONE: u32 = 65536;

/// Denominator of the fixed-point safety multiplier (thousandths).
pub const MULTIPLIER_ONE: u32 = 1000;

/// Controls how the scheduler adapts pipeline depth in response to deadline
/// misses and hits.
#[derive(Clone, Copy, PartialEq, Eq, Structural, Hash, Debug)]
pub enum DegradationPolicy {
    /// Adapt pipeline depth automatically: increase by one after
    /// `miss_threshold` consecutive misses, decrease by one after
    /// `recovery_threshold` consecutive hits, bounded by the configured
    /// depth range.
    Adaptive {
        /// Number of consecutive misses before increasing depth.
        miss_threshold: u32,
        /// Number of consecutive hits before decreasing depth.
        recovery_threshold: u32,
    },
    /// Keep pipeline depth fixed at the initial depth. Build cost and the
    /// safety margin are still tracked.
    Fixed,
}

/// Configuration for the [`Scheduler`].
#[derive(Clone, Copy, PartialEq, Eq, Structural, Debug)]
pub struct SchedulerConfig {
    /// Initial pipeline depth.
    pub initial_depth: u8,
    /// Minimum pipeline depth.
    pub min_depth: u8,
    /// Maximum pipeline depth.
    pub max_depth: u8,
    /// EMA smoothing factor for build cost estimation, in units of
    /// [`ALPHA_ONE`] (0 means the estimate never moves, [`ALPHA_ONE`] means
    /// the latest sample replaces it).
    pub ema_alpha: u32,
    /// Safety margin multiplier applied to the EMA build cost, in
    /// thousandths ([`MULTIPLIER_ONE`] is a factor of one).
    pub safety_multiplier: u32,
    /// Nominal latency (in ticks) used for pacing-only mode when no
    /// predicted present time is available.
    pub nominal_latency: Duration,
    /// Policy for adapting pipeline depth.
    pub degradation_policy: DegradationPolicy,
}

impl SchedulerConfig {
    /// Whether the configured smoothing factor is a valid fraction.
    pub open spec fn wf(self) -> bool {
        self.ema_alpha <= ALPHA_ONE
    }

    /// Default configuration for predictive platforms (one fifth smoothing,
    /// 1.5x safety multiplier, adaptive depth).
    pub fn macos() -> (r: Self)
        ensures
            r == (SchedulerConfig {
                initial_depth: 2u8,
                min_depth: 1u8,
                max_depth: 3u8,
                ema_alpha: 13107u32,
                safety_multiplier: 1500u32,
                nominal_latency: Duration(0),
                degradation_policy: DegradationPolicy::Adaptive {
                    miss_threshold: 3u32,
                    recovery_threshold: 10u32,
                },
            }),
            r.wf(),
    {
        SchedulerConfig {
            initial_depth: 2,
            min_depth: 1,
            max_depth: 3,
            ema_alpha: 13107,
            safety_multiplier: 1500,
            nominal_latency: Duration(0),
            degradation_policy: DegradationPolicy::Adaptive {
                miss_threshold: 3,
                recovery_threshold: 10,
            },
        }
    }

    /// Default configuration for pacing-only platforms (0.15 smoothing, 2x
    /// safety multiplier, ~16 ms nominal latency at nanosecond ticks).
    pub fn web() -> (r: Self)
        ensures
            r == (SchedulerConfig {
                initial_depth: 2u8,
                min_depth: 1u8,
                max_depth: 3u8,
                ema_alpha: 9830u32,
                safety_multiplier: 2000u32,
                nominal_latency: Duration(16_000_000),
                degradation_policy: DegradationPolicy::Adaptive {
                    miss_threshold: 3u32,
                    recovery_threshold: 10u32,
                },
            }),
            r.wf(),
    {
        SchedulerConfig {
            initial_depth: 2,
            min_depth: 1,
            max_depth: 3,
            ema_alpha: 9830,
            safety_multiplier: 2000,
            nominal_latency: Duration(16_000_000),
            degradation_policy: DegradationPolicy::Adaptive {
                miss_threshold: 3,
                recovery_threshold: 10,
            },
        }
    }
}

/// The blended value after feeding `sample` into an EMA standing at `value`:
/// `(alpha * sample + (ALPHA_ONE - alpha) * value) / ALPHA_ONE`.
pub open spec fn ema_blend(alpha: u32, value: u64, sample: u64) -> int {
    (alpha * sample + (ALPHA_ONE - alpha) * value) / (ALPHA_ONE as int)
}

/// The safety margin derived from an EMA build cost: `ema * multiplier /
/// MULTIPLIER_ONE`, clamped to 64 bits.
pub open spec fn margin_of(ema: u64, multiplier: u32) -> u64 {
    if ema * multiplier / (MULTIPLIER_ONE as int) <= u64::MAX {
        (ema * multiplier / (MULTIPLIER_ONE as int)) as u64
    } else {
        u64::MAX
    }
}

/// Exponential moving average tracker over integer tick counts.
#[derive(Clone, Copy, PartialEq, Eq, Structural, Debug)]
pub struct Ema {
    /// Current smoothed value, in ticks.
    pub value: u64,
    /// Smoothing factor in units of [`ALPHA_ONE`].
    pub alpha: u32,
    /// Whether a first sample has been folded in.
    pub initialized: bool,
}

impl Ema {
    /// Creates an uninitialized tracker with the given smoothing factor.
    pub fn new(alpha: u32) -> (r: Self)
        ensures
            r == (Ema { value: 0u64, alpha, initialized: false }),
    {
        Ema { value: 0, alpha, initialized: false }
    }

    /// Folds one sample into the average. The first sample initializes the
    /// value exactly; later samples blend by the smoothing factor.
    pub fn update(&mut self, sample: u64)
        requires
            old(self).alpha <= ALPHA_ONE,
        ensures
            final(self).alpha == old(self).alpha,
            final(self).initialized,
            old(self).initialized ==> final(self).value
                == ema_blend(old(self).alpha, old(self).value, sample),
            !old(self).initialized ==> final(self).value == sample,
    {
        if self.initialized {
            proof {
                let m = if sample >= self.value { sample } else { self.value };
                assert(self.alpha * sample + (ALPHA_ONE - self.alpha) * self.value
                    <= ALPHA_ONE * m) by (nonlinear_arith)
                    requires
                        self.alpha <= ALPHA_ONE,
                        sample <= m,
                        self.value <= m,
                ;
                assert((ALPHA_ONE * m) / (ALPHA_ONE as int) == m) by (nonlinear_arith)
                    requires
                        m >= 0,
                ;
                vstd::arithmetic::div_mod::lemma_div_is_ordered(
                    self.alpha * sample + (ALPHA_ONE - self.alpha) * self.value,
                    ALPHA_ONE * m,
                    ALPHA_ONE as int,
                );
            }
            let a: u128 = self.alpha as u128;
            let num: u128 = a * sample as u128 + (ALPHA_ONE - self.alpha) as u128
                * self.value as u128;
            let blended: u128 = num / ALPHA_ONE as u128;
            self.value = blended as u64;
        } else {
            self.value = sample;
            self.initialized = true;
        }
    }

    /// Returns the current smoothed value.
    pub fn get(&self) -> (r: u64)
        ensures
            r == self.value,
    {
        self.value
    }
}

/// Frame scheduler that converts [`FrameTick`]s into [`FramePlan`]s and
/// adapts pipeline depth and safety margin over time.
#[derive(Clone, Copy, PartialEq, Eq, Structural, Debug)]
pub struct Scheduler {
    /// The configuration the scheduler was created with.
    pub config: SchedulerConfig,
    /// Current pipeline depth.
    pub pipeline_depth: u8,
    /// Smoothed build cost in ticks.
    pub build_cost_ema: Ema,
    /// Current safety margin in ticks.
    pub safety_margin_ticks: u64,
    /// Consecutive deadline misses observed.
    pub consecutive_misses: u32,
    /// Consecutive deadline hits observed.
    pub consecutive_hits: u32,
}

/// The plan the scheduler produces for one tick: target the desired present
/// time (falling back to the tick's prediction); pacing-only ticks get no
/// present time and a semantic time of `now + nominal_latency` (saturating).
pub open spec fn plan_spec(s: Scheduler, tick: FrameTick, hints: PresentHints) -> FramePlan {
    let target = if hints.desired_present is Some {
        hints.desired_present
    } else {
        tick.predicted_present
    };
    let (present_time, semantic_time) = match tick.confidence {
        TimingConfidence::Predictive | TimingConfidence::Estimated => (
            target,
            if target is Some {
                target->0
            } else {
                tick.now
            },
        ),
        TimingConfidence::PacingOnly => (
            None::<crate::time::HostTime>,
            if tick.now.0 + s.config.nominal_latency.0 <= u64::MAX {
                crate::time::HostTime((tick.now.0 + s.config.nominal_latency.0) as u64)
            } else {
                crate::time::HostTime(u64::MAX)
            },
        ),
    };
    FramePlan {
        semantic_time,
        present_time,
        commit_deadline: hints.latest_commit,
        pipeline_depth: s.pipeline_depth,
        output: tick.output,
        frame_index: tick.frame_index,
    }
}

/// How one observation moves the depth-adaptation state: misses and hits
/// count consecutively, and crossing a threshold steps the depth by one
/// within the configured bounds. The `Fixed` policy changes nothing.
pub open spec fn adapt_spec(s: Scheduler, missed: Option<bool>) -> (u8, u32, u32) {
    match s.config.degradation_policy {
        DegradationPolicy::Adaptive { miss_threshold, recovery_threshold } => match missed {
            Some(true) => {
                let m = if s.consecutive_misses < u32::MAX {
                    (s.consecutive_misses + 1) as u32
                } else {
                    u32::MAX
                };
                if m >= miss_threshold && s.pipeline_depth < s.config.max_depth {
                    (((s.pipeline_depth + 1) as u8), 0u32, 0u32)
                } else {
                    (s.pipeline_depth, m, 0u32)
                }
            },
            Some(false) => {
                let h = if s.consecutive_hits < u32::MAX {
                    (s.consecutive_hits + 1) as u32
                } else {
                    u32::MAX
                };
                if h >= recovery_threshold && s.pipeline_depth > s.config.min_depth {
                    (((s.pipeline_depth - 1) as u8), 0u32, 0u32)
                } else {
                    (s.pipeline_depth, 0u32, h)
                }
            },
            None => (s.pipeline_depth, 0u32, 0u32),
        },
        DegradationPolicy::Fixed => (s.pipeline_depth, s.consecutive_misses, s.consecutive_hits),
    }
}

/// The whole state transition of [`Scheduler::observe`]: fold the build cost
/// into the EMA, refresh the safety margin, and adapt the depth.
pub open spec fn observe_spec(s: Scheduler, feedback: PresentFeedback) -> Scheduler {
    let build = if feedback.submitted_at.0 >= feedback.build_start.0 {
        (feedback.submitted_at.0 - feedback.build_start.0) as u64
    } else {
        0u64
    };
    let new_value = if s.build_cost_ema.initialized {
        ema_blend(s.config.ema_alpha, s.build_cost_ema.value, build) as u64
    } else {
        build
    };
    let (depth, misses, hits) = adapt_spec(s, feedback.missed_deadline);
    Scheduler {
        config: s.config,
        pipeline_depth: depth,
        build_cost_ema: Ema { value: new_value, alpha: s.config.ema_alpha, initialized: true },
        safety_margin_ticks: margin_of(new_value, s.config.safety_multiplier),
        consecutive_misses: misses,
        consecutive_hits: hits,
    }
}

impl Scheduler {
    /// The scheduler's internal consistency: the smoothing factor is a valid
    /// fraction and the EMA tracker carries the configured factor.
    pub open spec fn wf(self) -> bool {
        self.config.wf() && self.build_cost_ema.alpha == self.config.ema_alpha
    }

    /// Creates a new scheduler with the given configuration.
    pub fn new(config: SchedulerConfig) -> (r: Self)
        ensures
            r.config == config,
            r.pipeline_depth == config.initial_depth,
            r.build_cost_ema == (Ema {
                value: 0u64,
                alpha: config.ema_alpha,
                initialized: false,
            }),
            r.safety_margin_ticks == 0,
            r.consecutive_misses == 0,
            r.consecutive_hits == 0,
    {
        Scheduler {
            pipeline_depth: config.initial_depth,
            build_cost_ema: Ema::new(config.ema_alpha),
            safety_margin_ticks: 0,
            consecutive_misses: 0,
            consecutive_hits: 0,
            config,
        }
    }

    /// Produces a [`FramePlan`] for the given tick and hints, exactly as
    /// [`plan_spec`] describes. The scheduler itself does not change.
    pub fn plan(&mut self, tick: &FrameTick, hints: &PresentHints) -> (r: FramePlan)
        ensures
            *final(self) == *old(self),
            r == plan_spec(*old(self), *tick, *hints),
    {
        let target_present = match hints.desired_present {
            Some(t) => Some(t),
            None => tick.predicted_present,
        };

        let (present_time, semantic_time) = match tick.confidence {
            TimingConfidence::Predictive | TimingConfidence::Estimated => {
                let ts = match target_present {
                    Some(t) => t,
                    None => tick.now,
                };
                (target_present, ts)
            },
            TimingConfidence::PacingOnly => {
                let ts = crate::time::HostTime(
                    u64_saturating_add(tick.now.0, self.config.nominal_latency.0),
                );
                (None, ts)
            },
        };

        FramePlan {
            semantic_time,
            present_time,
            commit_deadline: hints.latest_commit,
            pipeline_depth: self.pipeline_depth,
            output: tick.output,
            frame_index: tick.frame_index,
        }
    }

    /// Feeds presentation feedback to adapt scheduling parameters, exactly
    /// as [`observe_spec`] describes.
    pub fn observe(&mut self, feedback: &PresentFeedback)
        requires
            old(self).wf(),
        ensures
            *final(self) == observe_spec(*old(self), *feedback),
            final(self).wf(),
    {
        let build_ticks = feedback
            .submitted_at
            .saturating_duration_since(feedback.build_start)
            .ticks();
        self.build_cost_ema.update(build_ticks);

        self.safety_margin_ticks = margin_ticks(
            self.build_cost_ema.get(),
            self.config.safety_multiplier,
        );

        match self.config.degradation_policy {
            DegradationPolicy::Adaptive { miss_threshold, recovery_threshold } => {
                match feedback.missed_deadline {
                    Some(true) => {
                        if self.consecutive_misses < u32::MAX {
                            self.consecutive_misses = self.consecutive_misses + 1;
                        }
                        self.consecutive_hits = 0;
                        if self.consecutive_misses >= miss_threshold
                            && self.pipeline_depth < self.config.max_depth {
                            self.pipeline_depth = self.pipeline_depth + 1;
                            self.consecutive_misses = 0;
                        }
                    },
                    Some(false) => {
                        if self.consecutive_hits < u32::MAX {
                            self.consecutive_hits = self.consecutive_hits + 1;
                        }
                        self.consecutive_misses = 0;
                        if self.consecutive_hits >= recovery_threshold
                            && self.pipeline_depth > self.config.min_depth {
                            self.pipeline_depth = self.pipeline_depth - 1;
                            self.consecutive_hits = 0;
                        }
                    },
                    None => {
                        self.consecutive_misses = 0;
                        self.consecutive_hits = 0;
                    },
                }
            },
            DegradationPolicy::Fixed => {},
        }
    }

    /// Returns the current pipeline depth.
    pub fn pipeline_depth(&self) -> (r: u8)
        ensures
            r == self.pipeline_depth,
    {
        self.pipeline_depth
    }

    /// Returns the current estimated safety margin in ticks.
    pub fn safety_margin_ticks(&self) -> (r: u64)
        ensures
            r == self.safety_margin_ticks,
    {
        self.safety_margin_ticks
    }
}

/// Scales an EMA build cost by the fixed-point safety multiplier, clamping
/// to 64 bits.
fn margin_ticks(ema: u64, multiplier: u32) -> (r: u64)
    ensures
        r == margin_of(ema, multiplier),
{
    proof {
        assert((ema as int) * (multiplier as int) <= (u64::MAX as int) * (u32::MAX as int))
            by (nonlinear_arith)
            requires
                ema <= u64::MAX,
                multiplier <= u32::MAX,
        ;
    }
    let wide: u128 = ema as u128 * multiplier as u128 / MULTIPLIER_ONE as u128;
    if wide <= u64::MAX as u128 {
        wide as u64
    } else {
        u64::MAX
    }
}

/// The scheduler state after observing each feedback of `fbs` in order.
pub open spec fn observe_all(s: Scheduler, fbs: Seq<PresentFeedback>) -> Scheduler
    decreases fbs.len(),
{
    if fbs.len() == 0 {
        s
    } else {
        observe_spec(observe_all(s, fbs.drop_last()), fbs.last())
    }
}

/// Observing a sequence and then one more feedback is the same as observing
/// the sequence with that feedback appended.
pub proof fn lemma_observe_all_push(s: Scheduler, fbs: Seq<PresentFeedback>, fb: PresentFeedback)
    ensures
        observe_all(s, fbs.push(fb)) == observe_spec(observe_all(s, fbs), fb),
{
    assert(fbs.push(fb).drop_last() =~= fbs);
    assert(fbs.push(fb).last() == fb);
}

/// Under the `Fixed` policy, no sequence of observations moves the pipeline
/// depth or the consecutive-miss and consecutive-hit counters.
pub proof fn lemma_fixed_policy_depth(s: Scheduler, fbs: Seq<PresentFeedback>)
    requires
        s.config.degradation_policy is Fixed,
    ensures
        observe_all(s, fbs).pipeline_depth == s.pipeline_depth,
        observe_all(s, fbs).consecutive_misses == s.consecutive_misses,
        observe_all(s, fbs).consecutive_hits == s.consecutive_hits,
        observe_all(s, fbs).config == s.config,
    decreases fbs.len(),
{
    if fbs.len() > 0 {
        lemma_fixed_policy_depth(s, fbs.drop_last());
    }
}

/// A run of `j` copies of one feedback value.
pub open spec fn feedback_run(fb: PresentFeedback, j: nat) -> Seq<PresentFeedback> {
    Seq::new(j, |i: int| fb)
}

/// Under `Adaptive { miss_threshold, .. }`, a run of missed-deadline
/// feedbacks shorter than the threshold only accumulates the miss counter:
/// the depth stays put.
pub proof fn lemma_miss_run_accumulates(s: Scheduler, fb: PresentFeedback, j: nat)
    requires
        s.config.degradation_policy matches DegradationPolicy::Adaptive { miss_threshold, .. }
            && s.consecutive_misses + j < miss_threshold,
        fb.missed_deadline == Some(true),
    ensures
        observe_all(s, feedback_run(fb, j)).pipeline_depth == s.pipeline_depth,
        observe_all(s, feedback_run(fb, j)).consecutive_misses
            == s.consecutive_misses + j,
        observe_all(s, feedback_run(fb, j)).config == s.config,
    decreases j,
{
    let run = feedback_run(fb, j);
    if j > 0 {
        lemma_miss_run_accumulates(s, fb, (j - 1) as nat);
        assert(run.drop_last() =~= feedback_run(fb, (j - 1) as nat));
    }
}

/// Under `Adaptive { miss_threshold: k, .. }` with the miss counter at zero
/// and the depth below the maximum, exactly `k` consecutive missed-deadline
/// feedbacks raise the depth by one and reset the counter; any shorter run
/// leaves the depth unchanged.
pub proof fn lemma_miss_streak_raises_depth(s: Scheduler, fb: PresentFeedback, k: nat)
    requires
        s.config.degradation_policy matches DegradationPolicy::Adaptive {
            miss_threshold,
            ..
        } && miss_threshold == k,
        1 <= k <= u32::MAX,
        s.consecutive_misses == 0,
        s.pipeline_depth < s.config.max_depth,
        fb.missed_deadline == Some(true),
    ensures
        forall|j: nat|
            j < k ==> #[trigger] observe_all(s, feedback_run(fb, j)).pipeline_depth
                == s.pipeline_depth,
        observe_all(s, feedback_run(fb, k)).pipeline_depth == s.pipeline_depth + 1,
        observe_all(s, feedback_run(fb, k)).consecutive_misses == 0,
{
    assert forall|j: nat| j < k implies #[trigger] observe_all(
        s,
        feedback_run(fb, j),
    ).pipeline_depth == s.pipeline_depth by {
        lemma_miss_run_accumulates(s, fb, j);
    }
    lemma_miss_run_accumulates(s, fb, (k - 1) as nat);
    let t = observe_all(s, feedback_run(fb, (k - 1) as nat));
    assert(feedback_run(fb, k).drop_last() =~= feedback_run(fb, (k - 1) as nat));
    assert(observe_all(s, feedback_run(fb, k)) == observe_spec(t, fb));
}

/// For a fixed safety multiplier, the safety margin is monotone in the EMA
/// build cost.
pub proof fn lemma_margin_monotone(e1: u64, e2: u64, multiplier: u32)
    requires
        e1 <= e2,
    ensures
        margin_of(e1, multiplier) <= margin_of(e2, multiplier),
{
    assert(e1 * multiplier <= e2 * multiplier) by (nonlinear_arith)
        requires
            e1 <= e2,
            multiplier >= 0,
    ;
    vstd::arithmetic::div_mod::lemma_div_is_ordered(
        e1 * multiplier,
        e2 * multiplier,
        MULTIPLIER_ONE as int,
    );
}

} // verus!
