//! A detector for agents that drive each other on.

use crate::ids::{ActionId, ClaimId, EventId, EvidenceId};
use crate::micromodel::MicroModelPrediction;
use crate::number::Number;
use crate::text::{decimal, decimal_text, opt_chars};
use vstd::prelude::*;
use vstd::string::StringExecFns;

verus! {

/// How busy the agents are.
#[derive(Debug, Clone, Copy, PartialEq, Eq, Structural, Hash)]
pub enum AgentLoopStormLevel {
    /// Within the limits.
    Normal,
    /// Busier than is usual.
    Warning,
    /// Far beyond what is expected.
    Critical,
}

impl AgentLoopStormLevel {
    /// The bits of the confidence in a prediction of the level.
    pub open spec fn confidence_bits(self) -> u64 {
        match self {
            AgentLoopStormLevel::Normal => 0x3feb_3333_3333_3333,
            AgentLoopStormLevel::Warning => 0x3feb_3333_3333_3333,
            AgentLoopStormLevel::Critical => 0x3fee_6666_6666_6666,
        }
    }

    /// How confident a prediction of the level is.
    pub fn confidence(&self) -> (r: Number)
        ensures
            r.bits == self.confidence_bits(),
    {
        match self {
            AgentLoopStormLevel::Normal => Number::from_bits(0x3feb_3333_3333_3333),
            AgentLoopStormLevel::Warning => Number::from_bits(0x3feb_3333_3333_3333),
            AgentLoopStormLevel::Critical => Number::from_bits(0x3fee_6666_6666_6666),
        }
    }

    /// The name of the level in documents.
    pub open spec fn name(self) -> Seq<char> {
        match self {
            AgentLoopStormLevel::Normal => "normal"@,
            AgentLoopStormLevel::Warning => "warning"@,
            AgentLoopStormLevel::Critical => "critical"@,
        }
    }

    /// The name of the level in documents.
    pub fn wire_name(&self) -> (r: &'static str)
        ensures
            r@ == self.name(),
    {
        match self {
            AgentLoopStormLevel::Normal => "normal",
            AgentLoopStormLevel::Warning => "warning",
            AgentLoopStormLevel::Critical => "critical",
        }
    }

    /// Whether the level calls for action: a warning, or worse.
    pub fn is_actionable(&self) -> (r: bool)
        ensures
            r == (*self is Warning || *self is Critical),
    {
        match self {
            AgentLoopStormLevel::Warning => true,
            AgentLoopStormLevel::Critical => true,
            _ => false,
        }
    }
}

/// The limits for agents within a window of time.
#[derive(Debug, Clone, Copy, PartialEq)]
pub struct AgentLoopStormConfig {
    /// The length of the window.
    pub window_secs: u64,
    /// The number of events of agents from which to warn.
    pub warning_agent_events: u64,
    /// The number of events of agents that is critical.
    pub critical_agent_events: u64,
    /// The number of proposed actions from which to warn.
    pub warning_actions_proposed: u64,
    /// The number of proposed actions that is critical.
    pub critical_actions_proposed: u64,
    /// The number of events of one agent from which to warn.
    pub same_actor_warning: u64,
    /// The number of events of one agent that is critical.
    pub same_actor_critical: u64,
}

impl AgentLoopStormConfig {
    /// The usual limits.
    pub open spec fn usual() -> Self {
        AgentLoopStormConfig {
            window_secs: 60,
            warning_agent_events: 50,
            critical_agent_events: 200,
            warning_actions_proposed: 10,
            critical_actions_proposed: 50,
            same_actor_warning: 30,
            same_actor_critical: 100,
        }
    }
}

impl Default for AgentLoopStormConfig {
    fn default() -> (r: Self)
        ensures
            r == AgentLoopStormConfig::usual(),
    {
        AgentLoopStormConfig {
            window_secs: 60,
            warning_agent_events: 50,
            critical_agent_events: 200,
            warning_actions_proposed: 10,
            critical_actions_proposed: 50,
            same_actor_warning: 30,
            same_actor_critical: 100,
        }
    }
}

/// What the detector says of the agents.
#[derive(Debug, PartialEq)]
pub struct AgentLoopStormOutput {
    pub level: AgentLoopStormLevel,
    pub window_secs: u64,
    pub agent_event_count: u64,
    pub action_proposed_count: u64,
    pub claim_proposed_count: u64,
    pub top_actor: Option<String>,
    pub top_actor_event_count: u64,
    pub reason: String,
}

/// The detector for agents.
#[derive(Debug, Clone, Copy)]
pub struct AgentLoopStormModel {
    config: AgentLoopStormConfig,
}

impl View for AgentLoopStormModel {
    type V = AgentLoopStormConfig;

    closed spec fn view(&self) -> AgentLoopStormConfig {
        self.config
    }
}

impl Default for AgentLoopStormModel {
    fn default() -> (r: Self)
        ensures
            r@ == AgentLoopStormConfig::usual(),
    {
        AgentLoopStormModel { config: AgentLoopStormConfig::default() }
    }
}

/// The level for the agents: any of the counts can reach it.
pub open spec fn storm_level(config: AgentLoopStormConfig, events: u64, actions: u64, top_events: u64) -> AgentLoopStormLevel {
    if events >= config.critical_agent_events || actions >= config.critical_actions_proposed || top_events
        >= config.same_actor_critical {
        AgentLoopStormLevel::Critical
    } else if events >= config.warning_agent_events || actions >= config.warning_actions_proposed || top_events
        >= config.same_actor_warning {
        AgentLoopStormLevel::Warning
    } else {
        AgentLoopStormLevel::Normal
    }
}

/// The counts as a text.
pub open spec fn counts_text(config: AgentLoopStormConfig, events: u64, actions: u64, claims: u64) -> Seq<char> {
    decimal_text(events as nat) + " agent events / "@ + decimal_text(actions as nat) + " actions / "@ + decimal_text(
        claims as nat,
    ) + " claims in "@ + decimal_text(config.window_secs as nat) + "s"@
}

/// What the busiest agent did, if it did anything.
pub open spec fn actor_text(top: Option<Seq<char>>, top_events: u64) -> Seq<char> {
    match top {
        Some(actor) => if top_events > 0 {
            "; top actor "@ + actor + " contributed "@ + decimal_text(top_events as nat) + " events"@
        } else {
            ""@
        },
        None => ""@,
    }
}

/// The text on the agents.
pub open spec fn storm_text(
    config: AgentLoopStormConfig,
    events: u64,
    actions: u64,
    claims: u64,
    top: Option<Seq<char>>,
    top_events: u64,
) -> Seq<char> {
    match storm_level(config, events, actions, top_events) {
        AgentLoopStormLevel::Normal => counts_text(config, events, actions, claims) + " \u{2014} within thresholds"@,
        AgentLoopStormLevel::Warning => "agent loop storm at warning level: "@ + counts_text(
            config,
            events,
            actions,
            claims,
        ) + actor_text(top, top_events),
        AgentLoopStormLevel::Critical => "agent loop storm at critical level: "@ + counts_text(
            config,
            events,
            actions,
            claims,
        ) + actor_text(top, top_events),
    }
}

fn render_counts(config: &AgentLoopStormConfig, events: u64, actions: u64, claims: u64) -> (r: String)
    ensures
        r@ == counts_text(*config, events, actions, claims),
{
    let mut r = decimal(events);
    r.append(" agent events / ");
    r.append(decimal(actions).as_str());
    r.append(" actions / ");
    r.append(decimal(claims).as_str());
    r.append(" claims in ");
    r.append(decimal(config.window_secs).as_str());
    r.append("s");
    r
}

fn render_actor(top_actor: &Option<String>, top_events: u64) -> (r: String)
    ensures
        r@ == actor_text(opt_chars(*top_actor), top_events),
{
    match top_actor {
        Some(actor) => if top_events > 0 {
            let mut r = "; top actor ".to_owned();
            r.append(actor.as_str());
            r.append(" contributed ");
            r.append(decimal(top_events).as_str());
            r.append(" events");
            r
        } else {
            "".to_owned()
        },
        None => "".to_owned(),
    }
}

impl AgentLoopStormModel {
    /// A model with limits of its own.
    pub fn with_config(config: AgentLoopStormConfig) -> (r: Self)
        ensures
            r@ == config,
    {
        Self { config }
    }

    /// The limits.
    pub fn config(&self) -> (r: &AgentLoopStormConfig)
        ensures
            *r == self@,
    {
        &self.config
    }

    /// Judges what the agents did within the window.
    pub fn evaluate_observation(
        &self,
        agent_event_count: u64,
        action_proposed_count: u64,
        claim_proposed_count: u64,
        top_actor: Option<String>,
        top_actor_event_count: u64,
    ) -> (r: AgentLoopStormOutput)
        ensures
            r.level == storm_level(self@, agent_event_count, action_proposed_count, top_actor_event_count),
            r.window_secs == self@.window_secs,
            r.agent_event_count == agent_event_count,
            r.action_proposed_count == action_proposed_count,
            r.claim_proposed_count == claim_proposed_count,
            r.top_actor == top_actor,
            r.top_actor_event_count == top_actor_event_count,
            r.reason@ == storm_text(
                self@,
                agent_event_count,
                action_proposed_count,
                claim_proposed_count,
                opt_chars(top_actor),
                top_actor_event_count,
            ),
    {
        let config = &self.config;
        let critical = agent_event_count >= config.critical_agent_events || action_proposed_count
            >= config.critical_actions_proposed || top_actor_event_count >= config.same_actor_critical;
        let warning = agent_event_count >= config.warning_agent_events || action_proposed_count
            >= config.warning_actions_proposed || top_actor_event_count >= config.same_actor_warning;
        let counts = render_counts(config, agent_event_count, action_proposed_count, claim_proposed_count);
        let (level, reason) = if critical || warning {
            let mut reason = if critical {
                "agent loop storm at critical level: ".to_owned()
            } else {
                "agent loop storm at warning level: ".to_owned()
            };
            reason.append(counts.as_str());
            reason.append(render_actor(&top_actor, top_actor_event_count).as_str());
            if critical {
                (AgentLoopStormLevel::Critical, reason)
            } else {
                (AgentLoopStormLevel::Warning, reason)
            }
        } else {
            let mut reason = counts;
            reason.append(" \u{2014} within thresholds");
            (AgentLoopStormLevel::Normal, reason)
        };
        AgentLoopStormOutput {
            level,
            window_secs: config.window_secs,
            agent_event_count,
            action_proposed_count,
            claim_proposed_count,
            top_actor,
            top_actor_event_count,
            reason,
        }
    }
}

/// What came of an evaluation that may propose a claim.
#[derive(Debug, PartialEq)]
pub struct AgentLoopStormAssessment {
    pub prediction: MicroModelPrediction,
    pub prediction_event_id: EventId,
    pub evidence_id: Option<EvidenceId>,
    pub evidence_event_id: Option<EventId>,
    pub claim_id: Option<ClaimId>,
    pub claim_event_id: Option<EventId>,
    pub level: AgentLoopStormLevel,
}

/// What came of an evaluation that may propose an action.
#[derive(Debug, PartialEq)]
pub struct AgentLoopStormActionAssessment {
    pub prediction: MicroModelPrediction,
    pub prediction_event_id: EventId,
    pub evidence_id: Option<EvidenceId>,
    pub claim_id: Option<ClaimId>,
    pub claim_event_id: Option<EventId>,
    pub action_ids: Vec<ActionId>,
    pub level: AgentLoopStormLevel,
}

/// Agents that do more are never judged better.
pub proof fn law_more_activity_is_no_better(
    config: AgentLoopStormConfig,
    events: u64,
    actions: u64,
    top_events: u64,
    more_events: u64,
    more_actions: u64,
    more_top_events: u64,
)
    requires
        events <= more_events,
        actions <= more_actions,
        top_events <= more_top_events,
    ensures
        storm_level(config, events, actions, top_events) is Critical ==> storm_level(
            config,
            more_events,
            more_actions,
            more_top_events,
        ) is Critical,
        storm_level(config, more_events, more_actions, more_top_events) is Normal ==> storm_level(
            config,
            events,
            actions,
            top_events,
        ) is Normal,
{
}

} // verus!
