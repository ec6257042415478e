//! The agent that turns executed actions into observed outcomes.

use crate::action::{Action, ActionKind, ActionKindModel, ActionModel, ActionStatus, Outcome, OutcomeKind, OutcomeModel};
use crate::action_store::{ActionStore, ActionStoreModel};
use crate::event::{Event, EventKind, Stamp};
use crate::ids::{clone_ids, clone_opt_id, texts, ActorId, EventId, EvidenceId, NodeId};
use crate::text::string_texts;
use crate::time::Timestamp;
use crate::value::{text_list, text_value, text_values, Properties, ValueModel};
use vstd::prelude::*;

verus! {

/// The agent that answers executed actions. That an action ran does not show that it
/// worked, so the outcome it records is unknown until evidence settles it.
#[derive(Debug)]
pub struct OutcomeAgent {
    pub actor_id: ActorId,
}

/// What is recorded of an executed backfill.
pub open spec fn backfill_impact() -> Map<Seq<char>, ValueModel> {
    Map::<Seq<char>, ValueModel>::empty().insert(
        "reason"@,
        ValueModel::Text("backfill action executed; outcome requires confirming evidence"@),
    ).insert("action_kind"@, ValueModel::Text("backfill"@))
}

/// The outcome recorded for an executed backfill.
pub open spec fn backfill_outcome(actor: Seq<char>, action: ActionModel, id: Seq<char>, now: Timestamp) -> OutcomeModel {
    OutcomeModel {
        id,
        tenant_id: action.tenant_id,
        action_id: action.id,
        kind: OutcomeKind::Unknown,
        observed_events: Seq::empty(),
        updated_claims: action.related_claims,
        produced_evidence: Seq::empty(),
        impact: backfill_impact(),
        observed_at: now,
        recorded_at: now,
        recorded_by: actor,
        caused_by: None,
    }
}

/// The events are the outcomes owed for an action: one of an executed backfill, none of
/// any other.
pub open spec fn are_outcomes(events: Seq<EventKind>, actor: Seq<char>, action: ActionModel, stamp: Stamp) -> bool {
    if action.status == ActionStatus::Executed && action.kind == ActionKindModel::Backfill {
        &&& events.len() == 1
        &&& events[0] is OutcomeObserved
        &&& events[0]->OutcomeObserved_outcome@ == backfill_outcome(actor, action, stamp.id@, stamp.timestamp)
    } else {
        events.len() == 0
    }
}

/// What the signal on a missing action carries.
pub open spec fn missing_action_payload(actor: Seq<char>, action_id: Seq<char>) -> Map<Seq<char>, ValueModel> {
    Map::<Seq<char>, ValueModel>::empty().insert("agent"@, ValueModel::Text(actor)).insert(
        "action_id"@,
        ValueModel::Text(action_id),
    ).insert("reasons"@, text_values(seq!["ActionExecuted referenced an action missing from ActionStore"@]))
}

/// The events are the agent's answer to what happened.
pub open spec fn is_outcome_reaction(
    events: Seq<EventKind>,
    actor: Seq<char>,
    kind: EventKind,
    actions: ActionStoreModel,
    stamp: Stamp,
) -> bool {
    match kind {
        EventKind::ActionExecuted { action_id } => {
            if actions.actions.contains_key(action_id@) {
                are_outcomes(events, actor, actions.actions[action_id@], stamp)
            } else {
                &&& events.len() == 1
                &&& match events[0] {
                    EventKind::Signal { name, source, payload } => {
                        &&& name@ == "outcome_missing_action"@
                        &&& source@ == "hydra.outcome_agent"@
                        &&& payload@ == missing_action_payload(actor, action_id@)
                    },
                    _ => false,
                }
            }
        },
        _ => events.len() == 0,
    }
}

impl OutcomeAgent {
    /// An agent that acts under a name.
    pub fn new(actor_id: ActorId) -> (r: Self)
        ensures
            r.actor_id == actor_id,
    {
        OutcomeAgent { actor_id }
    }

    /// Under whose name the agent acts.
    pub fn actor_id(&self) -> (r: &ActorId)
        ensures
            *r == self.actor_id,
    {
        &self.actor_id
    }

    fn signal(&self, name: &str, action_id: &str, reasons: &Vec<String>) -> (r: EventKind)
        ensures
            match r {
                EventKind::Signal { name: given, source, payload } => {
                    &&& given@ == name@
                    &&& source@ == "hydra.outcome_agent"@
                    &&& payload@ == Map::<Seq<char>, ValueModel>::empty().insert(
                        "agent"@,
                        ValueModel::Text(self.actor_id@),
                    ).insert("action_id"@, ValueModel::Text(action_id@)).insert(
                        "reasons"@,
                        text_values(string_texts(reasons@)),
                    )
                },
                _ => false,
            },
    {
        let mut payload = Properties::new();
        payload.set("agent".to_owned(), text_value(self.actor_id.as_str()));
        payload.set("action_id".to_owned(), text_value(action_id));
        payload.set("reasons".to_owned(), text_list(reasons));
        EventKind::Signal { name: name.to_owned(), source: NodeId::from_str("hydra.outcome_agent"), payload }
    }

    /// The outcomes of an executed action. The stamp gives the outcome its identifier and
    /// its time.
    pub fn outcomes_for_executed_action(&self, action: &Action, stamp: Stamp) -> (r: Vec<EventKind>)
        ensures
            are_outcomes(r@, self.actor_id@, action@, stamp),
    {
        let mut events: Vec<EventKind> = Vec::new();
        if action.status != ActionStatus::Executed {
            return events;
        }
        match &action.kind {
            ActionKind::Backfill => {},
            _ => {
                return events;
            },
        }
        let mut impact = Properties::new();
        impact.set(
            "reason".to_owned(),
            text_value("backfill action executed; outcome requires confirming evidence"),
        );
        impact.set("action_kind".to_owned(), text_value("backfill"));
        let observed_events: Vec<EventId> = Vec::new();
        let produced_evidence: Vec<EvidenceId> = Vec::new();
        assert(texts(observed_events@) =~= Seq::<Seq<char>>::empty());
        assert(texts(produced_evidence@) =~= Seq::<Seq<char>>::empty());
        let outcome = Outcome {
            id: stamp.id,
            tenant_id: clone_opt_id(&action.tenant_id),
            action_id: action.id.clone(),
            kind: OutcomeKind::Unknown,
            observed_events,
            updated_claims: clone_ids(&action.related_claims),
            produced_evidence,
            impact,
            observed_at: stamp.timestamp,
            recorded_at: stamp.timestamp,
            recorded_by: self.actor_id.clone(),
            caused_by: None,
        };
        events.push(EventKind::OutcomeObserved { outcome });
        events
    }

    /// Answers an event.
    pub fn react(&self, event: &Event, action_store: &ActionStore, stamp: Stamp) -> (r: Vec<EventKind>)
        requires
            action_store.inv(),
        ensures
            is_outcome_reaction(r@, self.actor_id@, event.kind, action_store@, stamp),
    {
        self.react_to_kind(&event.kind, action_store, stamp)
    }

    /// Answers what happened: of an executed action the outcome is recorded, or a signal
    /// given where the action is unknown; everything else is left alone.
    pub fn react_to_kind(&self, kind: &EventKind, action_store: &ActionStore, stamp: Stamp) -> (r: Vec<EventKind>)
        requires
            action_store.inv(),
        ensures
            is_outcome_reaction(r@, self.actor_id@, *kind, action_store@, stamp),
    {
        match kind {
            EventKind::ActionExecuted { action_id } => {
                match action_store.action(action_id) {
                    Some(action) => self.outcomes_for_executed_action(action, stamp),
                    None => {
                        let mut reasons: Vec<String> = Vec::new();
                        reasons.push("ActionExecuted referenced an action missing from ActionStore".to_owned());
                        assert(string_texts(reasons@)
                            =~= seq!["ActionExecuted referenced an action missing from ActionStore"@]);
                        let mut events: Vec<EventKind> = Vec::new();
                        events.push(self.signal("outcome_missing_action", action_id.as_str(), &reasons));
                        events
                    },
                }
            },
            _ => Vec::new(),
        }
    }
}

/// No outcome is ever recorded as a success by the agent: an executed action is no proof
/// that it worked.
pub proof fn law_execution_proves_nothing(
    events: Seq<EventKind>,
    actor: Seq<char>,
    kind: EventKind,
    actions: ActionStoreModel,
    stamp: Stamp,
)
    requires
        is_outcome_reaction(events, actor, kind, actions, stamp),
    ensures
        forall|i: int|
            0 <= i < events.len() && (#[trigger] events[i]) is OutcomeObserved
                ==> events[i]->OutcomeObserved_outcome@.kind == OutcomeKind::Unknown,
{
}

} // verus!
