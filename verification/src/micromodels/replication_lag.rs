//! A detector for followers that fall behind or fall silent.

use crate::ids::{ActionId, ClaimId, EventId, EvidenceId, Id};
use crate::micromodel::MicroModelPrediction;
use crate::number::Number;
use crate::text::{decimal, decimal_text};
use crate::time::Timestamp;
use vstd::prelude::*;
use vstd::string::StringExecFns;

verus! {

/// How far a follower is behind.
#[derive(Debug, Clone, Copy, PartialEq, Eq, Structural, Hash)]
pub enum ReplicationLagAnomalyLevel {
    /// Within the limits.
    Normal,
    /// Behind by more than is usual.
    Warning,
    /// Far beyond what is expected.
    Critical,
}

impl ReplicationLagAnomalyLevel {
    /// The bits of the confidence in a prediction of the level.
    pub open spec fn confidence_bits(self) -> u64 {
        match self {
            ReplicationLagAnomalyLevel::Normal => 0x3feb_3333_3333_3333,
            ReplicationLagAnomalyLevel::Warning => 0x3feb_3333_3333_3333,
            ReplicationLagAnomalyLevel::Critical => 0x3fee_6666_6666_6666,
        }
    }

    /// How confident a prediction of the level is.
    pub fn confidence(&self) -> (r: Number)
        ensures
            r.bits == self.confidence_bits(),
    {
        match self {
            ReplicationLagAnomalyLevel::Normal => Number::from_bits(0x3feb_3333_3333_3333),
            ReplicationLagAnomalyLevel::Warning => Number::from_bits(0x3feb_3333_3333_3333),
            ReplicationLagAnomalyLevel::Critical => Number::from_bits(0x3fee_6666_6666_6666),
        }
    }

    /// The name of the level in documents.
    pub open spec fn name(self) -> Seq<char> {
        match self {
            ReplicationLagAnomalyLevel::Normal => "normal"@,
            ReplicationLagAnomalyLevel::Warning => "warning"@,
            ReplicationLagAnomalyLevel::Critical => "critical"@,
        }
    }

    /// The name of the level in documents.
    pub fn wire_name(&self) -> (r: &'static str)
        ensures
            r@ == self.name(),
    {
        match self {
            ReplicationLagAnomalyLevel::Normal => "normal",
            ReplicationLagAnomalyLevel::Warning => "warning",
            ReplicationLagAnomalyLevel::Critical => "critical",
        }
    }

    /// Whether the level calls for action: a warning, or worse.
    pub fn is_actionable(&self) -> (r: bool)
        ensures
            r == (*self is Warning || *self is Critical),
    {
        match self {
            ReplicationLagAnomalyLevel::Warning => true,
            ReplicationLagAnomalyLevel::Critical => true,
            _ => false,
        }
    }
}

/// The limits for followers.
#[derive(Debug, Clone, Copy, PartialEq)]
pub struct ReplicationLagAnomalyConfig {
    /// The number of missing commits from which a follower is warned of.
    pub warning_lag_commits: u64,
    /// The number of missing commits from which a follower is critical. A model takes no less
    /// than the number from which a follower is warned of.
    pub critical_lag_commits: u64,
    /// The seconds of silence after which a follower is critical.
    pub stale_heartbeat_after_secs: u64,
}

impl ReplicationLagAnomalyConfig {
    /// The usual limits.
    pub open spec fn usual() -> Self {
        ReplicationLagAnomalyConfig {
            warning_lag_commits: 10,
            critical_lag_commits: 100,
            stale_heartbeat_after_secs: 60,
        }
    }

    /// A follower is warned of before it is critical, or at once.
    pub open spec fn in_order(self) -> bool {
        self.critical_lag_commits >= self.warning_lag_commits
    }

    /// The limits as a model takes them: the critical one is raised to that of the warning.
    pub open spec fn enforced(self) -> Self {
        if self.in_order() {
            self
        } else {
            ReplicationLagAnomalyConfig { critical_lag_commits: self.warning_lag_commits, ..self }
        }
    }
}

impl Default for ReplicationLagAnomalyConfig {
    fn default() -> (r: Self)
        ensures
            r == ReplicationLagAnomalyConfig::usual(),
    {
        ReplicationLagAnomalyConfig {
            warning_lag_commits: 10,
            critical_lag_commits: 100,
            stale_heartbeat_after_secs: 60,
        }
    }
}

/// What the detector says of a follower.
#[derive(Debug, PartialEq)]
pub struct ReplicationLagAnomalyOutput {
    pub level: ReplicationLagAnomalyLevel,
    pub lag_commits: u64,
    pub stale_heartbeat: bool,
    pub reason: String,
}

/// The detector for followers.
#[derive(Debug, Clone, Copy)]
pub struct ReplicationLagAnomalyModel {
    config: ReplicationLagAnomalyConfig,
}

impl ReplicationLagAnomalyModel {
    #[verifier::type_invariant]
    spec fn limits_are_in_order(self) -> bool {
        self.config.in_order()
    }
}

impl View for ReplicationLagAnomalyModel {
    type V = ReplicationLagAnomalyConfig;

    closed spec fn view(&self) -> ReplicationLagAnomalyConfig {
        self.config
    }
}

impl Default for ReplicationLagAnomalyModel {
    fn default() -> (r: Self)
        ensures
            r@ == ReplicationLagAnomalyConfig::usual(),
    {
        ReplicationLagAnomalyModel { config: ReplicationLagAnomalyConfig::default() }
    }
}

/// Whether a follower has been silent for too long; one that never spoke has.
pub open spec fn is_stale(config: ReplicationLagAnomalyConfig, now: Timestamp, last: Option<Timestamp>) -> bool {
    match last {
        None => true,
        Some(at) => now.total_nanos() - at.total_nanos() > config.stale_heartbeat_after_secs * 1_000_000_000,
    }
}

/// The level for a follower.
pub open spec fn lag_level(config: ReplicationLagAnomalyConfig, lag: u64, stale: bool) -> ReplicationLagAnomalyLevel {
    if stale || lag >= config.critical_lag_commits {
        ReplicationLagAnomalyLevel::Critical
    } else if lag >= config.warning_lag_commits {
        ReplicationLagAnomalyLevel::Warning
    } else {
        ReplicationLagAnomalyLevel::Normal
    }
}

/// The text on a follower.
pub open spec fn lag_text(config: ReplicationLagAnomalyConfig, lag: u64, stale: bool) -> Seq<char> {
    if stale {
        "replication heartbeat stale: no observation in last "@ + decimal_text(
            config.stale_heartbeat_after_secs as nat,
        ) + "s"@
    } else {
        "replication lag "@ + decimal_text(lag as nat) + match lag_level(config, lag, stale) {
            ReplicationLagAnomalyLevel::Normal => " commits within warning threshold "@ + decimal_text(
                config.warning_lag_commits as nat,
            ),
            ReplicationLagAnomalyLevel::Warning => " commits exceeds warning threshold "@ + decimal_text(
                config.warning_lag_commits as nat,
            ),
            ReplicationLagAnomalyLevel::Critical => " commits exceeds critical threshold "@ + decimal_text(
                config.critical_lag_commits as nat,
            ),
        }
    }
}

impl ReplicationLagAnomalyModel {
    /// A model with limits of its own. A critical limit below that of the warning is raised
    /// to it.
    pub fn with_config(config: ReplicationLagAnomalyConfig) -> (r: Self)
        ensures
            r@ == config.enforced(),
    {
        if config.critical_lag_commits >= config.warning_lag_commits {
            Self { config }
        } else {
            Self {
                config: ReplicationLagAnomalyConfig {
                    warning_lag_commits: config.warning_lag_commits,
                    critical_lag_commits: config.warning_lag_commits,
                    stale_heartbeat_after_secs: config.stale_heartbeat_after_secs,
                },
            }
        }
    }

    /// The limits.
    pub fn config(&self) -> (r: &ReplicationLagAnomalyConfig)
        ensures
            *r == self@,
            r.in_order(),
    {
        proof {
            use_type_invariant(self);
        }
        &self.config
    }

    /// Judges a follower by the commits it lacks and the time at which it last spoke. A time
    /// yet to come counts as fresh.
    pub fn evaluate_observation(&self, now: Timestamp, lag_commits: u64, last_observed_at: Option<Timestamp>) -> (r:
        ReplicationLagAnomalyOutput)
        requires
            now.valid(),
            last_observed_at is Some ==> last_observed_at->0.valid(),
        ensures
            r.stale_heartbeat == is_stale(self@, now, last_observed_at),
            r.level == lag_level(self@, lag_commits, r.stale_heartbeat),
            r.lag_commits == lag_commits,
            r.reason@ == lag_text(self@, lag_commits, r.stale_heartbeat),
    {
        let stale_heartbeat = match last_observed_at {
            None => true,
            Some(at) => {
                let limit: u64 = self.config.stale_heartbeat_after_secs;
                let elapsed: i64 = now.seconds_since(at);
                at.before(now) && (elapsed as u64 > limit || (elapsed as u64 == limit && now.nanos != at.nanos))
            },
        };
        let level = if stale_heartbeat || lag_commits >= self.config.critical_lag_commits {
            ReplicationLagAnomalyLevel::Critical
        } else if lag_commits >= self.config.warning_lag_commits {
            ReplicationLagAnomalyLevel::Warning
        } else {
            ReplicationLagAnomalyLevel::Normal
        };
        let reason = self.render_reason(level, lag_commits, stale_heartbeat);
        ReplicationLagAnomalyOutput { level, lag_commits, stale_heartbeat, reason }
    }

    fn render_reason(&self, level: ReplicationLagAnomalyLevel, lag_commits: u64, stale_heartbeat: bool) -> (r: String)
        requires
            level == lag_level(self@, lag_commits, stale_heartbeat),
        ensures
            r@ == lag_text(self@, lag_commits, stale_heartbeat),
    {
        if stale_heartbeat {
            let mut r = "replication heartbeat stale: no observation in last ".to_owned();
            r.append(decimal(self.config.stale_heartbeat_after_secs).as_str());
            r.append("s");
            return r;
        }
        let mut r = "replication lag ".to_owned();
        r.append(decimal(lag_commits).as_str());
        let ghost start = r@;
        let (verdict, limit): (&str, u64) = match level {
            ReplicationLagAnomalyLevel::Normal => (
                " commits within warning threshold ",
                self.config.warning_lag_commits,
            ),
            ReplicationLagAnomalyLevel::Warning => (
                " commits exceeds warning threshold ",
                self.config.warning_lag_commits,
            ),
            ReplicationLagAnomalyLevel::Critical => (
                " commits exceeds critical threshold ",
                self.config.critical_lag_commits,
            ),
        };
        r.append(verdict);
        r.append(decimal(limit).as_str());
        assert(r@ =~= start + (verdict@ + decimal_text(limit as nat)));
        r
    }
}

/// What came of an evaluation that may propose a claim.
#[derive(Debug, PartialEq)]
pub struct ReplicationLagAnomalyAssessment {
    pub prediction: MicroModelPrediction,
    pub prediction_event_id: EventId,
    pub evidence_id: Option<EvidenceId>,
    pub evidence_event_id: Option<EventId>,
    pub claim_id: Option<ClaimId>,
    pub claim_event_id: Option<EventId>,
    pub level: ReplicationLagAnomalyLevel,
    pub peer_id: Id,
}

/// What came of an evaluation that may propose an action.
#[derive(Debug, PartialEq)]
pub struct ReplicationLagAnomalyActionAssessment {
    pub prediction: MicroModelPrediction,
    pub prediction_event_id: EventId,
    pub evidence_id: Option<EvidenceId>,
    pub claim_id: Option<ClaimId>,
    pub claim_event_id: Option<EventId>,
    pub action_ids: Vec<ActionId>,
    pub level: ReplicationLagAnomalyLevel,
    pub peer_id: Id,
}

/// A silent follower is critical, whatever it lacked when it last spoke.
pub proof fn law_silence_is_critical(config: ReplicationLagAnomalyConfig, lag: u64)
    ensures
        lag_level(config, lag, true) == ReplicationLagAnomalyLevel::Critical,
{
}

/// A follower that lacks more is never judged better.
pub proof fn law_more_lag_is_no_better(config: ReplicationLagAnomalyConfig, less: u64, more: u64, stale: bool)
    requires
        less <= more,
    ensures
        lag_level(config, less, stale) is Critical ==> lag_level(config, more, stale) is Critical,
        lag_level(config, more, stale) is Normal ==> lag_level(config, less, stale) is Normal,
{
}

} // verus!
