//! A detector for commit rates that leave what is usual.

use crate::decimals::{fixed, fixed_text};
use crate::ids::{ActionId, ClaimId, EventId, EvidenceId};
use crate::micromodel::MicroModelPrediction;
use crate::number::{Number, ONE};
use crate::text::{decimal, decimal_text};
use crate::time::Timestamp;
use vstd::prelude::*;
use vstd::string::StringExecFns;

verus! {

/// How far a rate is from what is expected.
#[derive(Debug, Clone, Copy, PartialEq, Eq, Structural, Hash)]
pub enum AnomalyLevel {
    /// Too little was seen to expect anything.
    WarmingUp,
    /// Within the limits, or too little expected to matter.
    Normal,
    /// Farther off than is usual.
    Warning,
    /// Far beyond what is expected.
    Critical,
}

impl AnomalyLevel {
    /// The bits of the confidence in a prediction of the level.
    pub open spec fn confidence_bits(self) -> u64 {
        match self {
            AnomalyLevel::WarmingUp => 0x3fe0_0000_0000_0000,
            AnomalyLevel::Normal => 0x3fe9_9999_9999_999a,
            AnomalyLevel::Warning => 0x3fe8_0000_0000_0000,
            AnomalyLevel::Critical => 0x3fec_cccc_cccc_cccd,
        }
    }

    /// How confident a prediction of the level is.
    pub fn confidence(&self) -> (r: Number)
        ensures
            r.bits == self.confidence_bits(),
    {
        match self {
            AnomalyLevel::WarmingUp => Number::from_bits(0x3fe0_0000_0000_0000),
            AnomalyLevel::Normal => Number::from_bits(0x3fe9_9999_9999_999a),
            AnomalyLevel::Warning => Number::from_bits(0x3fe8_0000_0000_0000),
            AnomalyLevel::Critical => Number::from_bits(0x3fec_cccc_cccc_cccd),
        }
    }

    /// The name of the level in documents.
    pub open spec fn name(self) -> Seq<char> {
        match self {
            AnomalyLevel::WarmingUp => "warming_up"@,
            AnomalyLevel::Normal => "normal"@,
            AnomalyLevel::Warning => "warning"@,
            AnomalyLevel::Critical => "critical"@,
        }
    }

    /// The name of the level in documents.
    pub fn wire_name(&self) -> (r: &'static str)
        ensures
            r@ == self.name(),
    {
        match self {
            AnomalyLevel::WarmingUp => "warming_up",
            AnomalyLevel::Normal => "normal",
            AnomalyLevel::Warning => "warning",
            AnomalyLevel::Critical => "critical",
        }
    }

    /// Whether the level calls for action: a warning, or worse.
    pub fn is_actionable(&self) -> (r: bool)
        ensures
            r == (*self is Warning || *self is Critical),
    {
        match self {
            AnomalyLevel::Warning => true,
            AnomalyLevel::Critical => true,
            _ => false,
        }
    }
}

/// To which side a rate is off.
#[derive(Debug, Clone, Copy, PartialEq, Eq, Structural, Hash)]
pub enum Direction {
    Spike,
    Drop,
    Stable,
}

impl Direction {
    /// The name of the direction in documents.
    pub open spec fn name(self) -> Seq<char> {
        match self {
            Direction::Spike => "spike"@,
            Direction::Drop => "drop"@,
            Direction::Stable => "stable"@,
        }
    }

    /// The name of the direction in documents.
    pub fn wire_name(&self) -> (r: &'static str)
        ensures
            r@ == self.name(),
    {
        match self {
            Direction::Spike => "spike",
            Direction::Drop => "drop",
            Direction::Stable => "stable",
        }
    }
}

/// The limits for commit rates.
#[derive(Debug, Clone, Copy, PartialEq)]
pub struct CommitRateAnomalyConfig {
    /// The number of observations before anything is judged.
    pub warmup_samples: u64,
    /// The deviation from which to warn.
    pub warning_z_score: Number,
    /// The deviation that is critical.
    pub critical_z_score: Number,
    /// The weight of a new observation.
    pub alpha: Number,
    /// The length of the window in which commits are counted.
    pub window_secs: u64,
    /// The expected rate up to which nothing is judged.
    pub min_expected_rate: Number,
}

impl CommitRateAnomalyConfig {
    /// The usual limits.
    pub open spec fn usual() -> Self {
        CommitRateAnomalyConfig {
            warmup_samples: 5,
            warning_z_score: Number { bits: 0x4008_0000_0000_0000 },
            critical_z_score: Number { bits: 0x4014_0000_0000_0000 },
            alpha: Number { bits: 0x3fc9_9999_9999_999a },
            window_secs: 60,
            min_expected_rate: Number { bits: 0x4014_0000_0000_0000 },
        }
    }
}

impl Default for CommitRateAnomalyConfig {
    fn default() -> (r: Self)
        ensures
            r == CommitRateAnomalyConfig::usual(),
    {
        CommitRateAnomalyConfig {
            warmup_samples: 5,
            warning_z_score: Number::from_bits(0x4008_0000_0000_0000),
            critical_z_score: Number::from_bits(0x4014_0000_0000_0000),
            alpha: Number::from_bits(0x3fc9_9999_9999_999a),
            window_secs: 60,
            min_expected_rate: Number::from_bits(0x4014_0000_0000_0000),
        }
    }
}

/// What was learned from the observations so far.
#[derive(Debug, Clone, Copy, PartialEq)]
pub struct CommitRateAnomalyState {
    pub ewma_rate: Number,
    pub ewma_variance: Number,
    pub samples_seen: u64,
    pub last_observed_at: Option<Timestamp>,
}

impl CommitRateAnomalyState {
    /// Nothing was seen.
    pub open spec fn cold() -> Self {
        CommitRateAnomalyState {
            ewma_rate: Number { bits: 0 },
            ewma_variance: Number { bits: 0 },
            samples_seen: 0,
            last_observed_at: None,
        }
    }
}

impl Default for CommitRateAnomalyState {
    fn default() -> (r: Self)
        ensures
            r == CommitRateAnomalyState::cold(),
    {
        CommitRateAnomalyState {
            ewma_rate: Number::from_bits(0),
            ewma_variance: Number::from_bits(0),
            samples_seen: 0,
            last_observed_at: None,
        }
    }
}

/// What the detector says of a rate.
#[derive(Debug, PartialEq)]
pub struct CommitRateAnomalyOutput {
    pub level: AnomalyLevel,
    pub direction: Direction,
    pub observed_rate: Number,
    pub expected_rate: Number,
    pub z_score: Number,
    pub reason: String,
}

/// The detector for commit rates.
#[derive(Debug, Clone, Copy)]
pub struct CommitRateAnomalyModel {
    config: CommitRateAnomalyConfig,
    state: CommitRateAnomalyState,
}

/// What the detector for commit rates stands for.
pub struct CommitRateModel {
    pub config: CommitRateAnomalyConfig,
    pub state: CommitRateAnomalyState,
}

impl View for CommitRateAnomalyModel {
    type V = CommitRateModel;

    closed spec fn view(&self) -> CommitRateModel {
        CommitRateModel { config: self.config, state: self.state }
    }
}

impl Default for CommitRateAnomalyModel {
    fn default() -> (r: Self)
        ensures
            r@ == (CommitRateModel { config: CommitRateAnomalyConfig::usual(), state: CommitRateAnomalyState::cold() }),
    {
        CommitRateAnomalyModel {
            config: CommitRateAnomalyConfig::default(),
            state: CommitRateAnomalyState::default(),
        }
    }
}

/// Sixty as a number.
pub const SIXTY: u64 = 0x404e_0000_0000_0000;

/// The commits of a window as commits in a minute; none where the window has no length.
pub open spec fn rate_of(count: nat, window_secs: nat) -> Number {
    if window_secs == 0 {
        Number { bits: 0 }
    } else {
        Number::nearest(count).product(Number { bits: SIXTY }).ratio(Number::nearest(window_secs))
    }
}

/// The commits of a window as commits in a minute.
pub fn commits_per_minute(count: u64, window_secs: u64) -> (r: Number)
    ensures
        r == rate_of(count as nat, window_secs as nat),
{
    if window_secs == 0 {
        return Number::from_bits(0);
    }
    Number::from_nat(count).times(Number::from_bits(SIXTY)).over(Number::from_nat(window_secs))
}

/// How far a rate is from the mean, in standard deviations of at least one.
pub open spec fn deviation(observed: Number, mean: Number, variance: Number) -> Number {
    observed.sum(mean.negated()).ratio(variance.greater(Number { bits: ONE }).root())
}

/// How far a rate is from the mean.
pub fn signed_z_score(observed: Number, mean: Number, variance: Number) -> (r: Number)
    ensures
        r == deviation(observed, mean, variance),
{
    observed.minus(mean).over(variance.at_least(Number::from_bits(ONE)).square_root())
}

/// At least: both are numbers, and the first is not below the second.
pub open spec fn reaches(x: Number, limit: Number) -> bool {
    limit.below(x) || limit.equal(x)
}

/// Whether rates are judged: enough was seen, and enough is expected.
pub open spec fn is_judged(model: CommitRateModel) -> bool {
    model.state.samples_seen >= model.config.warmup_samples && !reaches(
        model.config.min_expected_rate,
        model.state.ewma_rate,
    )
}

/// The level for a rate.
pub open spec fn rate_level(model: CommitRateModel, z: Number) -> AnomalyLevel {
    let size = Number { bits: z.magnitude() as u64 };
    if model.state.samples_seen < model.config.warmup_samples {
        AnomalyLevel::WarmingUp
    } else if !is_judged(model) {
        AnomalyLevel::Normal
    } else if reaches(size, model.config.critical_z_score) {
        AnomalyLevel::Critical
    } else if reaches(size, model.config.warning_z_score) {
        AnomalyLevel::Warning
    } else {
        AnomalyLevel::Normal
    }
}

/// To which side a rate is off.
pub open spec fn rate_direction(level: AnomalyLevel, z: Number) -> Direction {
    let zero = Number { bits: 0 };
    if level is WarmingUp || level is Normal {
        Direction::Stable
    } else if zero.below(z) {
        Direction::Spike
    } else if z.below(zero) {
        Direction::Drop
    } else {
        Direction::Stable
    }
}

/// What a rate does, in words.
pub open spec fn verb_text(level: AnomalyLevel, direction: Direction) -> Seq<char> {
    match direction {
        Direction::Spike => if level is Critical {
            "vastly exceeds"@
        } else {
            "exceeds"@
        },
        Direction::Drop => "falls below"@,
        Direction::Stable => "deviates from"@,
    }
}

/// The text on a rate.
pub open spec fn rate_text(
    level: AnomalyLevel,
    direction: Direction,
    observed: Number,
    expected: Number,
    z: Number,
    samples_seen: u64,
    warmup_samples: u64,
) -> Seq<char> {
    match level {
        AnomalyLevel::WarmingUp => "warming up: "@ + decimal_text(samples_seen as nat + 1) + "/"@ + decimal_text(
            warmup_samples as nat,
        ) + " samples collected"@,
        AnomalyLevel::Normal => "commit rate "@ + fixed_text(observed, 0) + "/min within \u{b1}"@ + fixed_text(
            Number { bits: z.magnitude() as u64 },
            1,
        ) + "\u{3c3} of expected "@ + fixed_text(expected, 0) + "/min"@,
        _ => "commit rate "@ + fixed_text(observed, 0) + "/min "@ + verb_text(level, direction) + " expected "@
            + fixed_text(expected, 0) + "/min by z-score "@ + fixed_text(z, 1),
    }
}

/// What was learned with one more observation. The first one is taken as it is; each later
/// one is weighed in.
pub open spec fn learned(model: CommitRateModel, at: Timestamp, observed: Number) -> CommitRateAnomalyState {
    let state = model.state;
    let alpha = model.config.alpha;
    let delta = observed.sum(state.ewma_rate.negated());
    CommitRateAnomalyState {
        ewma_rate: if state.samples_seen == 0 {
            observed
        } else {
            state.ewma_rate.sum(alpha.product(delta))
        },
        ewma_variance: if state.samples_seen == 0 {
            state.ewma_variance
        } else {
            (Number { bits: ONE }).sum(alpha.negated()).product(state.ewma_variance).sum(
                alpha.product(delta).product(delta),
            )
        },
        samples_seen: (state.samples_seen + 1) as u64,
        last_observed_at: Some(at),
    }
}

/// Renders the text on a rate.
fn render_reason(
    level: AnomalyLevel,
    direction: Direction,
    observed: Number,
    expected: Number,
    z: Number,
    samples_seen: u64,
    warmup_samples: u64,
) -> (r: String)
    requires
        samples_seen < u64::MAX,
    ensures
        r@ == rate_text(level, direction, observed, expected, z, samples_seen, warmup_samples),
{
    match level {
        AnomalyLevel::WarmingUp => {
            let mut r = "warming up: ".to_owned();
            r.append(decimal(samples_seen + 1).as_str());
            r.append("/");
            r.append(decimal(warmup_samples).as_str());
            r.append(" samples collected");
            r
        },
        AnomalyLevel::Normal => {
            let mut r = "commit rate ".to_owned();
            r.append(fixed(observed, 0).as_str());
            r.append("/min within \u{b1}");
            r.append(fixed(z.absolute(), 1).as_str());
            r.append("\u{3c3} of expected ");
            r.append(fixed(expected, 0).as_str());
            r.append("/min");
            r
        },
        _ => {
            let verb = match direction {
                Direction::Spike => match level {
                    AnomalyLevel::Critical => "vastly exceeds",
                    _ => "exceeds",
                },
                Direction::Drop => "falls below",
                Direction::Stable => "deviates from",
            };
            let mut r = "commit rate ".to_owned();
            r.append(fixed(observed, 0).as_str());
            r.append("/min ");
            r.append(verb);
            r.append(" expected ");
            r.append(fixed(expected, 0).as_str());
            r.append("/min by z-score ");
            r.append(fixed(z, 1).as_str());
            r
        },
    }
}

impl CommitRateAnomalyModel {
    /// A detector with limits of its own.
    pub fn with_config(config: CommitRateAnomalyConfig) -> (r: Self)
        ensures
            r@ == (CommitRateModel { config, state: CommitRateAnomalyState::cold() }),
    {
        CommitRateAnomalyModel { config, state: CommitRateAnomalyState::default() }
    }

    /// A detector that has learned something.
    pub fn with_state(config: CommitRateAnomalyConfig, state: CommitRateAnomalyState) -> (r: Self)
        ensures
            r@ == (CommitRateModel { config, state }),
    {
        CommitRateAnomalyModel { config, state }
    }

    /// The limits.
    pub fn config(&self) -> (r: &CommitRateAnomalyConfig)
        ensures
            *r == self@.config,
    {
        &self.config
    }

    /// What was learned.
    pub fn state(&self) -> (r: &CommitRateAnomalyState)
        ensures
            *r == self@.state,
    {
        &self.state
    }

    /// Judges the commits of a window by what was learned before, then learns from them.
    pub fn evaluate_observation(&mut self, observed_at: Timestamp, commit_count_in_window: u64) -> (r:
        CommitRateAnomalyOutput)
        requires
            old(self)@.state.samples_seen < u64::MAX,
        ensures
            ({
                let before = old(self)@;
                let rate = rate_of(commit_count_in_window as nat, before.config.window_secs as nat);
                let z = deviation(rate, before.state.ewma_rate, before.state.ewma_variance);
                &&& final(self)@ == (CommitRateModel {
                    config: before.config,
                    state: learned(before, observed_at, rate),
                })
                &&& r.level == rate_level(before, z)
                &&& r.direction == rate_direction(r.level, z)
                &&& r.observed_rate == rate
                &&& r.expected_rate == before.state.ewma_rate
                &&& r.z_score == if is_judged(before) {
                    z
                } else {
                    Number { bits: 0 }
                }
                &&& r.reason@ == rate_text(
                    r.level,
                    r.direction,
                    rate,
                    before.state.ewma_rate,
                    z,
                    before.state.samples_seen,
                    before.config.warmup_samples,
                )
            }),
    {
        let observed_rate = commits_per_minute(commit_count_in_window, self.config.window_secs);
        let expected_rate = self.state.ewma_rate;
        let z = signed_z_score(observed_rate, expected_rate, self.state.ewma_variance);
        let size = z.absolute();
        let warm = self.state.samples_seen >= self.config.warmup_samples;
        let judged = warm && !expected_rate.le(self.config.min_expected_rate);
        let level = if !warm {
            AnomalyLevel::WarmingUp
        } else if !judged {
            AnomalyLevel::Normal
        } else if self.config.critical_z_score.le(size) {
            AnomalyLevel::Critical
        } else if self.config.warning_z_score.le(size) {
            AnomalyLevel::Warning
        } else {
            AnomalyLevel::Normal
        };
        let zero = Number::from_bits(0);
        let direction = match level {
            AnomalyLevel::WarmingUp => Direction::Stable,
            AnomalyLevel::Normal => Direction::Stable,
            _ => if zero.lt(z) {
                Direction::Spike
            } else if z.lt(zero) {
                Direction::Drop
            } else {
                Direction::Stable
            },
        };
        let reason = render_reason(
            level,
            direction,
            observed_rate,
            expected_rate,
            z,
            self.state.samples_seen,
            self.config.warmup_samples,
        );
        self.update_state(observed_at, observed_rate);
        let z_score = if judged {
            z
        } else {
            zero
        };
        CommitRateAnomalyOutput { level, direction, observed_rate, expected_rate, z_score, reason }
    }

    fn update_state(&mut self, observed_at: Timestamp, observed_rate: Number)
        requires
            old(self)@.state.samples_seen < u64::MAX,
        ensures
            final(self)@ == (CommitRateModel {
                config: old(self)@.config,
                state: learned(old(self)@, observed_at, observed_rate),
            }),
    {
        if self.state.samples_seen == 0 {
            self.state.ewma_rate = observed_rate;
        } else {
            let alpha = self.config.alpha;
            let delta = observed_rate.minus(self.state.ewma_rate);
            self.state.ewma_rate = self.state.ewma_rate.plus(alpha.times(delta));
            self.state.ewma_variance = Number::from_bits(ONE).minus(alpha).times(self.state.ewma_variance).plus(
                alpha.times(delta).times(delta),
            );
        }
        self.state.samples_seen = self.state.samples_seen + 1;
        self.state.last_observed_at = Some(observed_at);
    }
}

/// What came of an evaluation that may propose a claim.
#[derive(Debug, PartialEq)]
pub struct CommitRateAnomalyAssessment {
    pub prediction: MicroModelPrediction,
    pub prediction_event_id: EventId,
    pub evidence_id: Option<EvidenceId>,
    pub claim_id: Option<ClaimId>,
    pub level: AnomalyLevel,
}

/// What came of an evaluation that may propose an action.
#[derive(Debug, PartialEq)]
pub struct CommitRateAnomalyActionAssessment {
    pub prediction: MicroModelPrediction,
    pub prediction_event_id: EventId,
    pub evidence_id: Option<EvidenceId>,
    pub claim_id: Option<ClaimId>,
    pub claim_event_id: Option<EventId>,
    pub action_ids: Vec<ActionId>,
    pub level: AnomalyLevel,
}

/// Nothing is judged before enough was seen, and nothing while little is expected.
pub proof fn law_quiet_rates_are_not_judged(model: CommitRateModel, z: Number)
    ensures
        rate_level(model, z) is WarmingUp <==> model.state.samples_seen < model.config.warmup_samples,
        reaches(model.config.min_expected_rate, model.state.ewma_rate) ==> rate_level(model, z) is WarmingUp
            || rate_level(model, z) is Normal,
        rate_level(model, z) is WarmingUp || rate_level(model, z) is Normal ==> rate_direction(rate_level(model, z), z)
            is Stable,
{
}

} // verus!
