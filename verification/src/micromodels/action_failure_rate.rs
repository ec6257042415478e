//! A detector for actions that fail.

use crate::decimals::{percent, percent_text};
use crate::ids::{ActionId, CausalCellId, ClaimId, EventId, EvidenceId};
use crate::micromodel::MicroModelPrediction;
use crate::number::Number;
use crate::text::{decimal, decimal_text, opt_chars};
use vstd::prelude::*;
use vstd::string::StringExecFns;

verus! {

/// How many actions fail.
#[derive(Debug, Clone, Copy, PartialEq, Eq, Structural, Hash)]
pub enum ActionFailureRateLevel {
    /// Within the limits.
    Normal,
    /// More than is usual.
    Warning,
    /// Far beyond what is expected.
    Critical,
}

impl ActionFailureRateLevel {
    /// The bits of the confidence in a prediction of the level.
    pub open spec fn confidence_bits(self) -> u64 {
        match self {
            ActionFailureRateLevel::Normal => 0x3feb_3333_3333_3333,
            ActionFailureRateLevel::Warning => 0x3feb_3333_3333_3333,
            ActionFailureRateLevel::Critical => 0x3fee_6666_6666_6666,
        }
    }

    /// How confident a prediction of the level is.
    pub fn confidence(&self) -> (r: Number)
        ensures
            r.bits == self.confidence_bits(),
    {
        match self {
            ActionFailureRateLevel::Normal => Number::from_bits(0x3feb_3333_3333_3333),
            ActionFailureRateLevel::Warning => Number::from_bits(0x3feb_3333_3333_3333),
            ActionFailureRateLevel::Critical => Number::from_bits(0x3fee_6666_6666_6666),
        }
    }

    /// The name of the level in documents.
    pub open spec fn name(self) -> Seq<char> {
        match self {
            ActionFailureRateLevel::Normal => "normal"@,
            ActionFailureRateLevel::Warning => "warning"@,
            ActionFailureRateLevel::Critical => "critical"@,
        }
    }

    /// The name of the level in documents.
    pub fn wire_name(&self) -> (r: &'static str)
        ensures
            r@ == self.name(),
    {
        match self {
            ActionFailureRateLevel::Normal => "normal",
            ActionFailureRateLevel::Warning => "warning",
            ActionFailureRateLevel::Critical => "critical",
        }
    }

    /// Whether the level calls for action: a warning, or worse.
    pub fn is_actionable(&self) -> (r: bool)
        ensures
            r == (*self is Warning || *self is Critical),
    {
        match self {
            ActionFailureRateLevel::Warning => true,
            ActionFailureRateLevel::Critical => true,
            _ => false,
        }
    }
}

/// The limits for failed actions within a window of time.
#[derive(Debug, Clone, Copy, PartialEq)]
pub struct ActionFailureRateConfig {
    /// The length of the window.
    pub window_secs: u64,
    /// The number of actions from which the part that failed counts.
    pub min_actions_for_ratio: u64,
    /// The number of failed actions from which to warn.
    pub warning_failure_count: u64,
    /// The number of failed actions that is critical.
    pub critical_failure_count: u64,
    /// The part of failed actions from which to warn.
    pub warning_failure_ratio: Number,
    /// The part of failed actions that is critical.
    pub critical_failure_ratio: Number,
}

impl ActionFailureRateConfig {
    /// The usual limits.
    pub open spec fn usual() -> Self {
        ActionFailureRateConfig {
            window_secs: 300,
            min_actions_for_ratio: 5,
            warning_failure_count: 3,
            critical_failure_count: 10,
            warning_failure_ratio: Number { bits: 0x3fd0_0000_0000_0000 },
            critical_failure_ratio: Number { bits: 0x3fe0_0000_0000_0000 },
        }
    }
}

impl Default for ActionFailureRateConfig {
    fn default() -> (r: Self)
        ensures
            r == ActionFailureRateConfig::usual(),
    {
        ActionFailureRateConfig {
            window_secs: 300,
            min_actions_for_ratio: 5,
            warning_failure_count: 3,
            critical_failure_count: 10,
            warning_failure_ratio: Number::from_bits(0x3fd0_0000_0000_0000),
            critical_failure_ratio: Number::from_bits(0x3fe0_0000_0000_0000),
        }
    }
}

/// What the detector says of the actions.
#[derive(Debug, PartialEq)]
pub struct ActionFailureRateOutput {
    pub level: ActionFailureRateLevel,
    pub window_secs: u64,
    pub actions_seen: u64,
    pub failed_actions: u64,
    pub failure_ratio: Number,
    pub top_failed_kind: Option<String>,
    pub reason: String,
}

/// The detector for failed actions.
#[derive(Debug, Clone, Copy)]
pub struct ActionFailureRateModel {
    config: ActionFailureRateConfig,
}

impl View for ActionFailureRateModel {
    type V = ActionFailureRateConfig;

    closed spec fn view(&self) -> ActionFailureRateConfig {
        self.config
    }
}

impl Default for ActionFailureRateModel {
    fn default() -> (r: Self)
        ensures
            r@ == ActionFailureRateConfig::usual(),
    {
        ActionFailureRateModel { config: ActionFailureRateConfig::default() }
    }
}

/// The part of the actions that failed; zero where there were none.
pub open spec fn failure_ratio(seen: u64, failed: u64) -> Number {
    if seen == 0 {
        Number { bits: 0 }
    } else {
        Number::part(failed as nat, seen as nat)
    }
}

/// Whether the part of failed actions reaches a limit, where there were enough actions.
pub open spec fn ratio_reaches(config: ActionFailureRateConfig, seen: u64, failed: u64, limit: Number) -> bool {
    seen >= config.min_actions_for_ratio && (limit.below(failure_ratio(seen, failed)) || limit.equal(
        failure_ratio(seen, failed),
    ))
}

/// The level for the actions.
pub open spec fn failure_level(config: ActionFailureRateConfig, seen: u64, failed: u64) -> ActionFailureRateLevel {
    if failed >= config.critical_failure_count || ratio_reaches(config, seen, failed, config.critical_failure_ratio) {
        ActionFailureRateLevel::Critical
    } else if failed >= config.warning_failure_count || ratio_reaches(
        config,
        seen,
        failed,
        config.warning_failure_ratio,
    ) {
        ActionFailureRateLevel::Warning
    } else {
        ActionFailureRateLevel::Normal
    }
}

/// Which kind of action failed most, if that is known.
pub open spec fn kind_text(kind: Option<Seq<char>>) -> Seq<char> {
    match kind {
        Some(k) => "; top failed kind "@ + k,
        None => ""@,
    }
}

/// The numbers of actions as a text.
pub open spec fn failures_text(config: ActionFailureRateConfig, seen: u64, failed: u64) -> Seq<char> {
    decimal_text(failed as nat) + " of "@ + decimal_text(seen as nat) + " actions failed in "@ + decimal_text(
        config.window_secs as nat,
    ) + "s"@
}

/// The text on the actions.
pub open spec fn failure_text(config: ActionFailureRateConfig, seen: u64, failed: u64, kind: Option<Seq<char>>) -> Seq<
    char,
> {
    let tail = failures_text(config, seen, failed) + "; failure ratio "@ + percent_text(
        failure_ratio(seen, failed),
        1,
    ) + "%"@ + kind_text(kind);
    match failure_level(config, seen, failed) {
        ActionFailureRateLevel::Normal => if seen == 0 {
            "no actions reached terminal state in "@ + decimal_text(config.window_secs as nat)
                + "s \u{2014} delivery healthy by absence"@
        } else {
            failures_text(config, seen, failed) + " \u{2014} within thresholds"@
        },
        ActionFailureRateLevel::Warning => "action delivery warning: "@ + tail,
        ActionFailureRateLevel::Critical => "action delivery critical: "@ + tail,
    }
}

fn render_failures(config: &ActionFailureRateConfig, seen: u64, failed: u64) -> (r: String)
    ensures
        r@ == failures_text(*config, seen, failed),
{
    let mut r = decimal(failed);
    r.append(" of ");
    r.append(decimal(seen).as_str());
    r.append(" actions failed in ");
    r.append(decimal(config.window_secs).as_str());
    r.append("s");
    r
}

fn render_tail(
    config: &ActionFailureRateConfig,
    seen: u64,
    failed: u64,
    ratio: Number,
    kind: &Option<String>,
) -> (r: String)
    requires
        ratio == failure_ratio(seen, failed),
    ensures
        r@ == failures_text(*config, seen, failed) + "; failure ratio "@ + percent_text(
            failure_ratio(seen, failed),
            1,
        ) + "%"@ + kind_text(opt_chars(*kind)),
{
    let mut r = render_failures(config, seen, failed);
    r.append("; failure ratio ");
    r.append(percent(ratio, 1).as_str());
    r.append("%");
    let ghost start = r@;
    if let Some(k) = kind {
        r.append("; top failed kind ");
        r.append(k.as_str());
        assert(r@ =~= start + ("; top failed kind "@ + k@));
    } else {
        proof {
            reveal_strlit("");
            assert(start + ""@ =~= start);
        }
    }
    r
}

impl ActionFailureRateModel {
    /// A model with limits of its own.
    pub fn with_config(config: ActionFailureRateConfig) -> (r: Self)
        ensures
            r@ == config,
    {
        Self { config }
    }

    /// The limits.
    pub fn config(&self) -> (r: &ActionFailureRateConfig)
        ensures
            *r == self@,
    {
        &self.config
    }

    /// Judges how many of the actions within the window failed.
    pub fn evaluate_observation(&self, actions_seen: u64, failed_actions: u64, top_failed_kind: Option<String>) -> (r:
        ActionFailureRateOutput)
        ensures
            r.level == failure_level(self@, actions_seen, failed_actions),
            r.window_secs == self@.window_secs,
            r.actions_seen == actions_seen,
            r.failed_actions == failed_actions,
            r.failure_ratio == failure_ratio(actions_seen, failed_actions),
            !r.failure_ratio.nan(),
            r.top_failed_kind == top_failed_kind,
            r.reason@ == failure_text(self@, actions_seen, failed_actions, opt_chars(top_failed_kind)),
    {
        let config = &self.config;
        let ratio = if actions_seen == 0 {
            Number::from_bits(0)
        } else {
            Number::quotient(failed_actions, actions_seen)
        };
        let eligible = actions_seen >= config.min_actions_for_ratio;
        let critical = failed_actions >= config.critical_failure_count || (eligible && config.critical_failure_ratio.le(
            ratio,
        ));
        let warning = failed_actions >= config.warning_failure_count || (eligible && config.warning_failure_ratio.le(
            ratio,
        ));
        let (level, reason) = if critical || warning {
            let tail = render_tail(config, actions_seen, failed_actions, ratio, &top_failed_kind);
            let mut reason = if critical {
                "action delivery critical: ".to_owned()
            } else {
                "action delivery warning: ".to_owned()
            };
            reason.append(tail.as_str());
            if critical {
                (ActionFailureRateLevel::Critical, reason)
            } else {
                (ActionFailureRateLevel::Warning, reason)
            }
        } else if actions_seen == 0 {
            let mut reason = "no actions reached terminal state in ".to_owned();
            reason.append(decimal(config.window_secs).as_str());
            reason.append("s \u{2014} delivery healthy by absence");
            (ActionFailureRateLevel::Normal, reason)
        } else {
            let mut reason = render_failures(config, actions_seen, failed_actions);
            reason.append(" \u{2014} within thresholds");
            (ActionFailureRateLevel::Normal, reason)
        };
        ActionFailureRateOutput {
            level,
            window_secs: config.window_secs,
            actions_seen,
            failed_actions,
            failure_ratio: ratio,
            top_failed_kind,
            reason,
        }
    }
}

/// What came of an evaluation that may propose a claim.
#[derive(Debug, PartialEq)]
pub struct ActionFailureRateAssessment {
    pub prediction: MicroModelPrediction,
    pub prediction_event_id: EventId,
    pub evidence_id: Option<EvidenceId>,
    pub evidence_event_id: Option<EventId>,
    pub claim_id: Option<ClaimId>,
    pub claim_event_id: Option<EventId>,
    pub causal_cell_id: Option<CausalCellId>,
    pub level: ActionFailureRateLevel,
}

/// What came of an evaluation that may propose an action.
#[derive(Debug, PartialEq)]
pub struct ActionFailureRateActionAssessment {
    pub prediction: MicroModelPrediction,
    pub prediction_event_id: EventId,
    pub evidence_id: Option<EvidenceId>,
    pub claim_id: Option<ClaimId>,
    pub claim_event_id: Option<EventId>,
    pub action_ids: Vec<ActionId>,
    pub causal_cell_id: Option<CausalCellId>,
    pub level: ActionFailureRateLevel,
}

/// Where there are too few actions, only the number of failures counts.
pub proof fn law_few_actions_have_no_ratio(config: ActionFailureRateConfig, seen: u64, failed: u64)
    requires
        seen < config.min_actions_for_ratio,
    ensures
        failure_level(config, seen, failed) is Critical <==> failed >= config.critical_failure_count,
        failure_level(config, seen, failed) is Normal <==> failed < config.critical_failure_count && failed
            < config.warning_failure_count,
{
}

} // verus!
