//! The agent that turns policy evaluations into events.

use crate::action::{Action, ActionModel};
use crate::action_store::{ActionStore, ActionStoreModel};
use crate::event::{Event, EventKind};
use crate::ids::{clone_ids, clone_opt_id, texts, ActorId, ApprovalId, NodeId, PolicyDecisionId};
use crate::policy::{
    ApprovalRequest, ApprovalRequestModel, ApprovalStatus, PolicyDecision, PolicyDecisionKind, PolicyDecisionModel,
    PolicyKind, PolicyKindModel,
};
use crate::policy_engine::{is_evaluation, PolicyEngine, PolicyEvaluationDecision, PolicyEvaluationReport, ReportModel};
use crate::policy_store::{PolicyStore, PolicyStoreModel};
use crate::text::{join, joined, quote, quoted};
use crate::time::Timestamp;
use crate::value::{text_list, text_value, text_values, Properties, ValueModel};
use vstd::prelude::*;
use vstd::string::StringExecFns;

verus! {

/// New identifiers, and the time, for the records that one evaluation leaves.
#[derive(Debug)]
pub struct PolicyMint {
    pub decision_id: PolicyDecisionId,
    pub approval_id: ApprovalId,
    pub now: Timestamp,
}

/// The agent that answers proposed actions. It changes nothing itself: it only emits
/// events.
#[derive(Debug)]
pub struct PolicyAgent {
    pub actor_id: ActorId,
    /// Who is asked for approval.
    pub default_approver: ActorId,
}

/// The recorded kind of a decision.
pub open spec fn recorded_kind(decision: PolicyEvaluationDecision) -> PolicyDecisionKind {
    match decision {
        PolicyEvaluationDecision::Allow => PolicyDecisionKind::Allow,
        PolicyEvaluationDecision::AutoApprove => PolicyDecisionKind::AutoApprove,
        PolicyEvaluationDecision::RequireApproval => PolicyDecisionKind::RequireApproval,
        PolicyEvaluationDecision::Reject => PolicyDecisionKind::Reject,
        PolicyEvaluationDecision::Block => PolicyDecisionKind::Block,
        PolicyEvaluationDecision::Escalate => PolicyDecisionKind::Escalate,
        PolicyEvaluationDecision::NeedsHumanReview => PolicyDecisionKind::NeedsHumanReview,
    }
}

/// The name of a decision.
pub open spec fn decision_text(decision: PolicyEvaluationDecision) -> Seq<char> {
    match decision {
        PolicyEvaluationDecision::Allow => "Allow"@,
        PolicyEvaluationDecision::AutoApprove => "AutoApprove"@,
        PolicyEvaluationDecision::RequireApproval => "RequireApproval"@,
        PolicyEvaluationDecision::Reject => "Reject"@,
        PolicyEvaluationDecision::Block => "Block"@,
        PolicyEvaluationDecision::Escalate => "Escalate"@,
        PolicyEvaluationDecision::NeedsHumanReview => "NeedsHumanReview"@,
    }
}

/// The name of a kind of policy.
pub open spec fn policy_kind_text(kind: PolicyKindModel) -> Seq<char> {
    match kind {
        PolicyKindModel::AutoApproval => "AutoApproval"@,
        PolicyKindModel::HumanApproval => "HumanApproval"@,
        PolicyKindModel::Block => "Block"@,
        PolicyKindModel::Escalation => "Escalation"@,
        PolicyKindModel::ReviewRequirement => "ReviewRequirement"@,
        PolicyKindModel::Compliance => "Compliance"@,
        PolicyKindModel::Security => "Security"@,
        PolicyKindModel::Finance => "Finance"@,
        PolicyKindModel::Payroll => "Payroll"@,
        PolicyKindModel::Custom(value) => "Custom("@ + quoted(value) + ")"@,
    }
}

/// What a decision record says of the evaluation.
pub open spec fn details_of(report: ReportModel) -> Map<Seq<char>, ValueModel> {
    let first = Map::<Seq<char>, ValueModel>::empty().insert(
        "evaluation_decision"@,
        ValueModel::Text(decision_text(report.decision)),
    );
    let second = match report.matched_policy_id {
        Some(id) => first.insert("matched_policy_id"@, ValueModel::Text(id)),
        None => first,
    };
    let third = match report.matched_policy_kind {
        Some(kind) => second.insert("matched_policy_kind"@, ValueModel::Text(policy_kind_text(kind))),
        None => second,
    };
    third.insert("reasons"@, text_values(report.reasons))
}

/// The record of a decision on an action.
pub open spec fn decision_record(
    actor: Seq<char>,
    action: ActionModel,
    report: ReportModel,
    id: Seq<char>,
    now: Timestamp,
) -> PolicyDecisionModel {
    PolicyDecisionModel {
        id,
        tenant_id: action.tenant_id,
        policy_id: report.matched_policy_id,
        action_id: action.id,
        kind: recorded_kind(report.decision),
        reason: joined(report.reasons, "; "@),
        evidence: action.supporting_evidence,
        related_claims: action.related_claims,
        decided_by: actor,
        decided_at: now,
        caused_by: None,
        details: details_of(report),
    }
}

/// The request for approval of an action.
pub open spec fn approval_for(
    actor: Seq<char>,
    approver: Seq<char>,
    action: ActionModel,
    decision: PolicyDecisionModel,
    id: Seq<char>,
    now: Timestamp,
) -> ApprovalRequestModel {
    ApprovalRequestModel {
        id,
        tenant_id: action.tenant_id,
        action_id: action.id,
        policy_decision_id: Some(decision.id),
        status: ApprovalStatus::Requested,
        requested_by: actor,
        requested_from: seq![approver],
        reason: decision.reason,
        requested_at: now,
        resolved_at: None,
        resolved_by: None,
        caused_by: None,
        metadata: Map::empty(),
    }
}

/// What a signal on a decision carries.
pub open spec fn signal_payload(
    actor: Seq<char>,
    action: ActionModel,
    report: ReportModel,
    decision: PolicyDecisionModel,
) -> Map<Seq<char>, ValueModel> {
    let first = Map::<Seq<char>, ValueModel>::empty().insert("agent"@, ValueModel::Text(actor)).insert(
        "action_id"@,
        ValueModel::Text(action.id),
    ).insert("policy_decision_id"@, ValueModel::Text(decision.id));
    let second = match decision.policy_id {
        Some(id) => first.insert("policy_id"@, ValueModel::Text(id)),
        None => first,
    };
    second.insert("policy_decision_kind"@, ValueModel::Text(decision_text(report.decision))).insert(
        "reasons"@,
        text_values(report.reasons),
    )
}

/// Whether the event is the signal with that name.
pub open spec fn is_policy_signal(
    event: EventKind,
    name: Seq<char>,
    actor: Seq<char>,
    action: ActionModel,
    report: ReportModel,
    decision: PolicyDecisionModel,
) -> bool {
    match event {
        EventKind::Signal { name: given, source, payload } => {
            &&& given@ == name
            &&& source@ == "hydra.policy_agent"@
            &&& payload@ == signal_payload(actor, action, report, decision)
        },
        _ => false,
    }
}

/// The events answer the report: first the record of the decision, then what follows
/// from it.
pub open spec fn answers(
    events: Seq<EventKind>,
    agent: PolicyAgent,
    action: ActionModel,
    report: ReportModel,
    mint: PolicyMint,
) -> bool {
    let actor = agent.actor_id@;
    let decision = decision_record(actor, action, report, mint.decision_id@, mint.now);
    &&& events.len() == 2
    &&& events[0] is PolicyDecisionRecorded
    &&& events[0]->PolicyDecisionRecorded_decision@ == decision
    &&& match report.decision {
        PolicyEvaluationDecision::Allow | PolicyEvaluationDecision::AutoApprove => match events[1] {
            EventKind::ActionApproved { action_id, approved_by, reason } => action_id@ == action.id && approved_by@
                == actor && reason is None,
            _ => false,
        },
        PolicyEvaluationDecision::RequireApproval => match events[1] {
            EventKind::ApprovalRequested { request } => request@ == approval_for(
                actor,
                agent.default_approver@,
                action,
                decision,
                mint.approval_id@,
                mint.now,
            ),
            _ => false,
        },
        PolicyEvaluationDecision::Reject | PolicyEvaluationDecision::Block => match events[1] {
            EventKind::ActionRejected { action_id, rejected_by, reason } => action_id@ == action.id && rejected_by@
                == actor && reason@ == decision.reason,
            _ => false,
        },
        PolicyEvaluationDecision::NeedsHumanReview => is_policy_signal(
            events[1],
            "policy_needs_human_review"@,
            actor,
            action,
            report,
            decision,
        ),
        PolicyEvaluationDecision::Escalate => is_policy_signal(
            events[1],
            "policy_escalated"@,
            actor,
            action,
            report,
            decision,
        ),
    }
}

/// The recorded kind of a decision.
pub fn policy_decision_kind(decision: &PolicyEvaluationDecision) -> (r: PolicyDecisionKind)
    ensures
        r == recorded_kind(*decision),
{
    match decision {
        PolicyEvaluationDecision::Allow => PolicyDecisionKind::Allow,
        PolicyEvaluationDecision::AutoApprove => PolicyDecisionKind::AutoApprove,
        PolicyEvaluationDecision::RequireApproval => PolicyDecisionKind::RequireApproval,
        PolicyEvaluationDecision::Reject => PolicyDecisionKind::Reject,
        PolicyEvaluationDecision::Block => PolicyDecisionKind::Block,
        PolicyEvaluationDecision::Escalate => PolicyDecisionKind::Escalate,
        PolicyEvaluationDecision::NeedsHumanReview => PolicyDecisionKind::NeedsHumanReview,
    }
}

fn show_decision(decision: &PolicyEvaluationDecision) -> (r: &'static str)
    ensures
        r@ == decision_text(*decision),
{
    match decision {
        PolicyEvaluationDecision::Allow => "Allow",
        PolicyEvaluationDecision::AutoApprove => "AutoApprove",
        PolicyEvaluationDecision::RequireApproval => "RequireApproval",
        PolicyEvaluationDecision::Reject => "Reject",
        PolicyEvaluationDecision::Block => "Block",
        PolicyEvaluationDecision::Escalate => "Escalate",
        PolicyEvaluationDecision::NeedsHumanReview => "NeedsHumanReview",
    }
}

fn show_policy_kind(kind: &PolicyKind) -> (r: String)
    ensures
        r@ == policy_kind_text(kind@),
{
    match kind {
        PolicyKind::AutoApproval => "AutoApproval".to_owned(),
        PolicyKind::HumanApproval => "HumanApproval".to_owned(),
        PolicyKind::Block => "Block".to_owned(),
        PolicyKind::Escalation => "Escalation".to_owned(),
        PolicyKind::ReviewRequirement => "ReviewRequirement".to_owned(),
        PolicyKind::Compliance => "Compliance".to_owned(),
        PolicyKind::Security => "Security".to_owned(),
        PolicyKind::Finance => "Finance".to_owned(),
        PolicyKind::Payroll => "Payroll".to_owned(),
        PolicyKind::Custom(value) => {
            let mut r = "Custom(".to_owned();
            r.append(quote(value.as_str()).as_str());
            r.append(")");
            r
        },
    }
}

fn report_details(report: &PolicyEvaluationReport) -> (r: Properties)
    ensures
        r@ == details_of(report@),
{
    let mut details = Properties::new();
    details.set("evaluation_decision".to_owned(), text_value(show_decision(&report.decision)));
    if let Some(id) = &report.matched_policy_id {
        details.set("matched_policy_id".to_owned(), text_value(id.as_str()));
    }
    if let Some(kind) = &report.matched_policy_kind {
        details.set("matched_policy_kind".to_owned(), text_value(show_policy_kind(kind).as_str()));
    }
    details.set("reasons".to_owned(), text_list(&report.reasons));
    details
}

impl PolicyAgent {
    /// An agent that acts under one name and asks another for approval.
    pub fn new(actor_id: ActorId, default_approver: ActorId) -> (r: Self)
        ensures
            r.actor_id == actor_id,
            r.default_approver == default_approver,
    {
        PolicyAgent { actor_id, default_approver }
    }

    /// Under whose name the agent acts.
    pub fn actor_id(&self) -> (r: &ActorId)
        ensures
            *r == self.actor_id,
    {
        &self.actor_id
    }

    /// Who is asked for approval.
    pub fn default_approver(&self) -> (r: &ActorId)
        ensures
            *r == self.default_approver,
    {
        &self.default_approver
    }

    fn approval_request(&self, action: &Action, decision: &PolicyDecision, id: ApprovalId, now: Timestamp) -> (r:
        ApprovalRequest)
        ensures
            r@ == approval_for(self.actor_id@, self.default_approver@, action@, decision@, id@, now),
    {
        let mut requested_from: Vec<ActorId> = Vec::new();
        requested_from.push(self.default_approver.clone());
        assert(texts(requested_from@) =~= seq![self.default_approver@]);
        ApprovalRequest {
            id,
            tenant_id: clone_opt_id(&action.tenant_id),
            action_id: action.id.clone(),
            policy_decision_id: Some(decision.id.clone()),
            status: ApprovalStatus::Requested,
            requested_by: self.actor_id.clone(),
            requested_from,
            reason: decision.reason.clone(),
            requested_at: now,
            resolved_at: None,
            resolved_by: None,
            caused_by: None,
            metadata: Properties::new(),
        }
    }

    fn signal(
        &self,
        name: &str,
        action: &Action,
        decision: &PolicyDecision,
        report: &PolicyEvaluationReport,
    ) -> (r: EventKind)
        ensures
            is_policy_signal(r, name@, self.actor_id@, action@, report@, decision@),
    {
        let mut payload = Properties::new();
        payload.set("agent".to_owned(), text_value(self.actor_id.as_str()));
        payload.set("action_id".to_owned(), text_value(action.id.as_str()));
        payload.set("policy_decision_id".to_owned(), text_value(decision.id.as_str()));
        if let Some(policy_id) = &decision.policy_id {
            payload.set("policy_id".to_owned(), text_value(policy_id.as_str()));
        }
        payload.set("policy_decision_kind".to_owned(), text_value(show_decision(&report.decision)));
        payload.set("reasons".to_owned(), text_list(&report.reasons));
        EventKind::Signal { name: name.to_owned(), source: NodeId::from_str("hydra.policy_agent"), payload }
    }

    /// Turns a report into events: the record of the decision, and what follows from it.
    pub fn events_from_report(&self, action: &Action, report: &PolicyEvaluationReport, mint: PolicyMint) -> (r: Vec<
        EventKind,
    >)
        ensures
            answers(r@, *self, action@, report@, mint),
    {
        let decision = PolicyDecision {
            id: mint.decision_id,
            tenant_id: clone_opt_id(&action.tenant_id),
            policy_id: clone_opt_id(&report.matched_policy_id),
            action_id: action.id.clone(),
            kind: policy_decision_kind(&report.decision),
            reason: join(&report.reasons, "; "),
            evidence: clone_ids(&action.supporting_evidence),
            related_claims: clone_ids(&action.related_claims),
            decided_by: self.actor_id.clone(),
            decided_at: mint.now,
            caused_by: None,
            details: report_details(report),
        };
        let second = match report.decision {
            PolicyEvaluationDecision::Allow | PolicyEvaluationDecision::AutoApprove => EventKind::ActionApproved {
                action_id: action.id.clone(),
                approved_by: self.actor_id.clone(),
                reason: None,
            },
            PolicyEvaluationDecision::RequireApproval => EventKind::ApprovalRequested {
                request: self.approval_request(action, &decision, mint.approval_id, mint.now),
            },
            PolicyEvaluationDecision::Reject | PolicyEvaluationDecision::Block => EventKind::ActionRejected {
                action_id: action.id.clone(),
                rejected_by: self.actor_id.clone(),
                reason: decision.reason.clone(),
            },
            PolicyEvaluationDecision::NeedsHumanReview => self.signal(
                "policy_needs_human_review",
                action,
                &decision,
                report,
            ),
            PolicyEvaluationDecision::Escalate => self.signal("policy_escalated", action, &decision, report),
        };
        let mut events: Vec<EventKind> = Vec::new();
        events.push(EventKind::PolicyDecisionRecorded { decision });
        events.push(second);
        events
    }

    /// Answers an event.
    pub fn react(
        &self,
        event: &Event,
        action_store: &ActionStore,
        policy_store: &PolicyStore,
        policy_engine: &PolicyEngine,
        mint: PolicyMint,
    ) -> (r: Vec<EventKind>)
        requires
            action_store.inv(),
            policy_store.inv(),
        ensures
            is_policy_reaction(r@, *self, event.kind, action_store@, policy_store@, mint),
    {
        self.react_to_kind(&event.kind, action_store, policy_store, policy_engine, mint)
    }

    /// Answers what happened: a proposed action is evaluated, as the store knows it, and
    /// everything else is left alone.
    pub fn react_to_kind(
        &self,
        kind: &EventKind,
        action_store: &ActionStore,
        policy_store: &PolicyStore,
        policy_engine: &PolicyEngine,
        mint: PolicyMint,
    ) -> (r: Vec<EventKind>)
        requires
            action_store.inv(),
            policy_store.inv(),
        ensures
            is_policy_reaction(r@, *self, *kind, action_store@, policy_store@, mint),
    {
        match kind {
            EventKind::ActionProposed { action } => {
                let known: &Action = match action_store.action(&action.id) {
                    Some(stored) => stored,
                    None => action,
                };
                let report = policy_engine.evaluate_action(policy_store, known);
                self.events_from_report(known, &report, mint)
            },
            _ => Vec::new(),
        }
    }
}

/// The action as the store knows it, or as it was proposed.
pub open spec fn known_action(store: ActionStoreModel, action: ActionModel) -> ActionModel {
    if store.actions.contains_key(action.id) {
        store.actions[action.id]
    } else {
        action
    }
}

/// The events are the agent's answer to what happened.
pub open spec fn is_policy_reaction(
    events: Seq<EventKind>,
    agent: PolicyAgent,
    kind: EventKind,
    actions: ActionStoreModel,
    policies: PolicyStoreModel,
    mint: PolicyMint,
) -> bool {
    match kind {
        EventKind::ActionProposed { action } => {
            let known = known_action(actions, action@);
            exists|report: ReportModel| #[trigger]
                is_evaluation(report, policies, known) && answers(events, agent, known, report, mint)
        },
        _ => events.len() == 0,
    }
}

/// An action that is blocked or rejected is never approved in the same answer, and one
/// that is approved was allowed.
pub proof fn law_answers_follow_the_decision(
    events: Seq<EventKind>,
    agent: PolicyAgent,
    action: ActionModel,
    report: ReportModel,
    mint: PolicyMint,
)
    requires
        answers(events, agent, action, report, mint),
    ensures
        events[1] is ActionApproved <==> (report.decision == PolicyEvaluationDecision::Allow || report.decision
            == PolicyEvaluationDecision::AutoApprove),
        events[1] is ActionRejected <==> (report.decision == PolicyEvaluationDecision::Reject || report.decision
            == PolicyEvaluationDecision::Block),
        events[1] is ApprovalRequested <==> report.decision == PolicyEvaluationDecision::RequireApproval,
        events[0]->PolicyDecisionRecorded_decision@.action_id == action.id,
{
}

} // verus!
