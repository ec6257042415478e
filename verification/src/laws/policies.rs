//! Laws of policies: which of them cover an action, and what is decided on it.

use crate::action::{ActionKindModel, ActionModel, ActionStatus};
use crate::action_store::ActionStoreModel;
use crate::event::EventKind;
use crate::policy::{
    ApprovalStatus, PolicyDecisionKind, PolicyKindModel, PolicyModel, PolicyScopeModel, PolicyStatus,
};
use crate::policy_agent::{answers, decision_text, is_policy_reaction, known_action, PolicyAgent, PolicyMint};
use crate::policy_engine::{
    candidate, decides, is_evaluation, policy_matches, PolicyEvaluationDecision, ReportModel,
};
use crate::policy_store::PolicyStoreModel;
use crate::text::text_less;
use crate::value::ValueModel;
use vstd::prelude::*;

verus! {

/// The policy asks for an approval: it is none of those that let actions pass, stop them, pass
/// them on, or ask for a review.
pub open spec fn asks_for_approval(kind: PolicyKindModel) -> bool {
    ||| kind == PolicyKindModel::HumanApproval
    ||| kind == PolicyKindModel::Compliance
    ||| kind == PolicyKindModel::Security
    ||| kind == PolicyKindModel::Finance
    ||| kind == PolicyKindModel::Payroll
    ||| kind is Custom
}

/// Some policy of the kind covers the action.
pub open spec fn covered(store: PolicyStoreModel, action: ActionModel, kind: PolicyKindModel) -> bool {
    exists|id: Seq<char>| #[trigger] candidate(store, action, id) && store.policies[id].kind == kind
}

/// Some policy that asks for an approval covers the action.
pub open spec fn approval_is_asked(store: PolicyStoreModel, action: ActionModel) -> bool {
    exists|id: Seq<char>| #[trigger] candidate(store, action, id) && asks_for_approval(store.policies[id].kind)
}

/// A policy covers an action only while it is active. One for any action covers all of them, one
/// for an actor those that the actor proposed, one for a claim those that the claim belongs to,
/// one for a tenant those of the tenant, and one with a scope of its own none.
pub proof fn law_scopes_cover_what_they_name(policy: PolicyModel, action: ActionModel, id: Seq<char>)
    ensures
        policy.status == PolicyStatus::Disabled ==> !policy_matches(policy, action),
        policy.status == PolicyStatus::Active ==> {
            &&& policy.scope == PolicyScopeModel::AnyAction ==> policy_matches(policy, action)
            &&& policy.scope == PolicyScopeModel::Actor(id) ==> (policy_matches(policy, action) <==> action.proposed_by
                == id)
            &&& policy.scope == PolicyScopeModel::Claim(id) ==> (policy_matches(policy, action)
                <==> action.related_claims.contains(id))
            &&& policy.scope == PolicyScopeModel::Tenant(id) ==> (policy_matches(policy, action) <==> action.tenant_id
                == Some(id))
            &&& policy.scope == PolicyScopeModel::Custom(id) ==> !policy_matches(policy, action)
        },
{
}

/// A policy for a kind of action covers the actions of that kind and no others: two actions
/// covered by it are of one kind. A kind without a name of its own has a name that starts
/// differently.
pub proof fn law_scopes_tell_kinds_apart(policy: PolicyModel, one: ActionModel, other: ActionModel)
    requires
        policy.scope is ActionKind,
        policy_matches(policy, one),
        policy_matches(policy, other),
    ensures
        one.kind == other.kind,
{
    reveal_strlit("Notify");
    reveal_strlit("CreateTicket");
    reveal_strlit("AssignOwner");
    reveal_strlit("RequestEvidence");
    reveal_strlit("Quarantine");
    reveal_strlit("Backfill");
    reveal_strlit("Repair");
    reveal_strlit("Approve");
    reveal_strlit("Reject");
    reveal_strlit("ExecuteWorkflow");
    reveal_strlit("PostLedgerEntry");
    reveal_strlit("RunPayroll");
    reveal_strlit("Custom:");
    let a = crate::policy_engine::action_kind_text(one.kind);
    let b = crate::policy_engine::action_kind_text(other.kind);
    assert(a == b);
    assert(a[0] == b[0] && a[1] == b[1] && a[2] == b[2] && a[3] == b[3] && a.len() == b.len());
    if let ActionKindModel::Custom(x) = one.kind {
        if let ActionKindModel::Custom(y) = other.kind {
            assert forall|i: int| 0 <= i < x.len() implies x[i] == y[i] by {
                assert(a[7 + i] == b[7 + i]);
            }
            assert(x =~= y);
        }
    }
}

/// A policy that names a kind of action covers actions of that kind.
pub proof fn law_scopes_cover_the_kind_they_name(policy: PolicyModel, action: ActionModel, label: Seq<char>)
    requires
        policy.status == PolicyStatus::Active,
    ensures
        policy.scope == PolicyScopeModel::ActionKind("RunPayroll"@) && action.kind == ActionKindModel::RunPayroll
            ==> policy_matches(policy, action),
        policy.scope == PolicyScopeModel::ActionKind("Quarantine"@) && action.kind == ActionKindModel::Quarantine
            ==> policy_matches(policy, action),
        policy.scope == PolicyScopeModel::ActionKind("ExecuteWorkflow"@) && action.kind
            == ActionKindModel::ExecuteWorkflow ==> policy_matches(policy, action),
        policy.scope == PolicyScopeModel::ActionKind("PostLedgerEntry"@) && action.kind
            == ActionKindModel::PostLedgerEntry ==> policy_matches(policy, action),
        policy.scope == PolicyScopeModel::ActionKind("Notify"@) && action.kind == ActionKindModel::Notify
            ==> policy_matches(policy, action),
        policy.scope == PolicyScopeModel::ActionKind("CreateTicket"@) && action.kind == ActionKindModel::CreateTicket
            ==> policy_matches(policy, action),
        policy.scope == PolicyScopeModel::ActionKind("AssignOwner"@) && action.kind == ActionKindModel::AssignOwner
            ==> policy_matches(policy, action),
        policy.scope == PolicyScopeModel::ActionKind("RequestEvidence"@) && action.kind == ActionKindModel::RequestEvidence
            ==> policy_matches(policy, action),
        policy.scope == PolicyScopeModel::ActionKind("Backfill"@) && action.kind == ActionKindModel::Backfill
            ==> policy_matches(policy, action),
        policy.scope == PolicyScopeModel::ActionKind("Repair"@) && action.kind == ActionKindModel::Repair
            ==> policy_matches(policy, action),
        policy.scope == PolicyScopeModel::ActionKind("Approve"@) && action.kind == ActionKindModel::Approve
            ==> policy_matches(policy, action),
        policy.scope == PolicyScopeModel::ActionKind("Reject"@) && action.kind == ActionKindModel::Reject
            ==> policy_matches(policy, action),
        policy.scope == PolicyScopeModel::ActionKind("Custom:"@ + label) && action.kind == ActionKindModel::Custom(label)
            ==> policy_matches(policy, action),
{
}

/// The decision on a proposed action follows from the kinds of the policies that cover it. One
/// that blocks prevails; then one that asks for an approval, one that asks for a review, one
/// that escalates, and last one that approves. Without any the action is allowed.
pub proof fn law_decision_follows_from_the_kinds(report: ReportModel, store: PolicyStoreModel, action: ActionModel)
    requires
        action.status == ActionStatus::Proposed,
        is_evaluation(report, store, action),
    ensures
        report.decision == (if covered(store, action, PolicyKindModel::Block) {
            PolicyEvaluationDecision::Block
        } else if approval_is_asked(store, action) {
            PolicyEvaluationDecision::RequireApproval
        } else if covered(store, action, PolicyKindModel::ReviewRequirement) {
            PolicyEvaluationDecision::NeedsHumanReview
        } else if covered(store, action, PolicyKindModel::Escalation) {
            PolicyEvaluationDecision::Escalate
        } else if covered(store, action, PolicyKindModel::AutoApproval) {
            PolicyEvaluationDecision::AutoApprove
        } else {
            PolicyEvaluationDecision::Allow
        }),
{
    if forall|id: Seq<char>| !#[trigger] candidate(store, action, id) {
    } else {
        let id = choose|id: Seq<char>| #[trigger]
            decides(store, action, id) && report == crate::policy_engine::report_on(action, store.policies[id]);
        assert(candidate(store, action, id));
        let kind = store.policies[id].kind;
        if covered(store, action, PolicyKindModel::Block) {
            let other = choose|x: Seq<char>| #[trigger]
                candidate(store, action, x) && store.policies[x].kind == PolicyKindModel::Block;
            assert(other == id || candidate(store, action, other));
        } else if approval_is_asked(store, action) {
            let other = choose|x: Seq<char>| #[trigger]
                candidate(store, action, x) && asks_for_approval(store.policies[x].kind);
            assert(other == id || candidate(store, action, other));
        } else if covered(store, action, PolicyKindModel::ReviewRequirement) {
            let other = choose|x: Seq<char>| #[trigger]
                candidate(store, action, x) && store.policies[x].kind == PolicyKindModel::ReviewRequirement;
            assert(other == id || candidate(store, action, other));
        } else if covered(store, action, PolicyKindModel::Escalation) {
            let other = choose|x: Seq<char>| #[trigger]
                candidate(store, action, x) && store.policies[x].kind == PolicyKindModel::Escalation;
            assert(other == id || candidate(store, action, other));
        }
    }
}

/// An action that an active policy of another kind than automatic approval covers never passes
/// by itself: neither is it allowed, nor approved automatically.
pub proof fn law_only_automatic_policies_let_actions_pass(
    report: ReportModel,
    store: PolicyStoreModel,
    action: ActionModel,
    id: Seq<char>,
)
    requires
        action.status == ActionStatus::Proposed,
        is_evaluation(report, store, action),
        store.policies.contains_key(id),
        store.policies[id].kind != PolicyKindModel::AutoApproval,
        policy_matches(store.policies[id], action),
    ensures
        report.decision != PolicyEvaluationDecision::Allow,
        report.decision != PolicyEvaluationDecision::AutoApprove,
        asks_for_approval(store.policies[id].kind) ==> report.decision == PolicyEvaluationDecision::RequireApproval
            || report.decision == PolicyEvaluationDecision::Block,
{
    assert(candidate(store, action, id));
    law_decision_follows_from_the_kinds(report, store, action);
}

/// Where the policies that cover an action all ask for an approval, and there is one, an approval
/// is required.
pub proof fn law_approval_is_required_where_it_is_asked(
    report: ReportModel,
    store: PolicyStoreModel,
    action: ActionModel,
    id: Seq<char>,
)
    requires
        action.status == ActionStatus::Proposed,
        is_evaluation(report, store, action),
        store.policies.contains_key(id),
        policy_matches(store.policies[id], action),
        forall|t: Seq<char>| #[trigger]
            store.policies.contains_key(t) && policy_matches(store.policies[t], action) ==> asks_for_approval(
                store.policies[t].kind,
            ),
    ensures
        report.decision == PolicyEvaluationDecision::RequireApproval,
{
    assert(candidate(store, action, id));
    assert(store.policies.contains_key(id));
    law_decision_follows_from_the_kinds(report, store, action);
    if covered(store, action, PolicyKindModel::Block) {
        let other = choose|x: Seq<char>| #[trigger]
            candidate(store, action, x) && store.policies[x].kind == PolicyKindModel::Block;
        assert(store.policies.contains_key(other));
    }
}

/// A report that names a policy names one of the store that is active and covers the action, and
/// of those that lead to the decision the one with the least identifier. Only an allowed action
/// is reported without a policy.
pub proof fn law_reports_name_the_policy_they_rest_on(
    report: ReportModel,
    store: PolicyStoreModel,
    action: ActionModel,
    other: Seq<char>,
)
    requires
        is_evaluation(report, store, action),
    ensures
        report.action_id == action.id,
        report.matched_policy_id is None <==> report.decision == PolicyEvaluationDecision::Allow,
        report.matched_policy_id is None <==> report.matched_policy_kind is None,
        action.status != ActionStatus::Proposed ==> report.decision == PolicyEvaluationDecision::Allow,
        report.reasons.len() == 1,
        (forall|t: Seq<char>| #[trigger] store.policies.contains_key(t) ==> store.policies[t].id == t) ==> {
            report.matched_policy_id matches Some(id) ==> {
                &&& store.policies.contains_key(id)
                &&& store.policies[id].status == PolicyStatus::Active
                &&& policy_matches(store.policies[id], action)
                &&& report.matched_policy_kind == Some(store.policies[id].kind)
                &&& candidate(store, action, other) && store.policies[other].kind == store.policies[id].kind && other != id
                    ==> text_less(id, other)
            }
        },
{
}

/// A policy that was disabled covers no action any more, and disabling it leaves all other
/// policies, the decisions and the approvals as they are.
pub proof fn law_disabled_policies_cover_nothing(
    store: PolicyStoreModel,
    event: crate::event::EventModel,
    id: Seq<char>,
    action: ActionModel,
    other: Seq<char>,
)
    requires
        event.kind is PolicyDisabled,
        event.kind->PolicyDisabled_policy_id@ == id,
        store.policies.contains_key(id) ==> store.policies[id].id == id,
    ensures
        store.after(event) is Ok <==> store.policies.contains_key(id),
        store.policies.contains_key(id) ==> {
            let next = store.after(event)->Ok_0;
            &&& next.policies.dom() == store.policies.dom()
            &&& !candidate(next, action, id)
            &&& next.policies[id].status == PolicyStatus::Disabled
            &&& next.policies[id].kind == store.policies[id].kind
            &&& next.policies[id].scope == store.policies[id].scope
            &&& other != id && store.policies.contains_key(other) ==> next.policies[other] == store.policies[other]
            &&& next.decisions == store.decisions
            &&& next.approvals == store.approvals
        },
{
    if store.policies.contains_key(id) {
        assert(store.after(event)->Ok_0.policies.dom() =~= store.policies.dom());
    }
}

/// The record of a decision says what was decided.
pub proof fn law_records_keep_the_decision(
    events: Seq<EventKind>,
    agent: PolicyAgent,
    action: ActionModel,
    report: ReportModel,
    mint: PolicyMint,
)
    requires
        answers(events, agent, action, report, mint),
    ensures
        ({
            let kind = events[0]->PolicyDecisionRecorded_decision@.kind;
            &&& kind == PolicyDecisionKind::Allow <==> report.decision == PolicyEvaluationDecision::Allow
            &&& kind == PolicyDecisionKind::AutoApprove <==> report.decision == PolicyEvaluationDecision::AutoApprove
            &&& kind == PolicyDecisionKind::RequireApproval <==> report.decision
                == PolicyEvaluationDecision::RequireApproval
            &&& kind == PolicyDecisionKind::NeedsHumanReview <==> report.decision
                == PolicyEvaluationDecision::NeedsHumanReview
            &&& kind == PolicyDecisionKind::Escalate <==> report.decision == PolicyEvaluationDecision::Escalate
            &&& kind == PolicyDecisionKind::Reject <==> report.decision == PolicyEvaluationDecision::Reject
            &&& kind == PolicyDecisionKind::Block <==> report.decision == PolicyEvaluationDecision::Block
        }),
        ({
            let record = events[0]->PolicyDecisionRecorded_decision@;
            &&& record.id == mint.decision_id@
            &&& record.tenant_id == action.tenant_id
            &&& record.policy_id == report.matched_policy_id
            &&& record.action_id == action.id
            &&& record.evidence == action.supporting_evidence
            &&& record.related_claims == action.related_claims
            &&& record.decided_by == agent.actor_id@
            &&& record.decided_at == mint.now
            &&& report.reasons.len() == 1 ==> record.reason == report.reasons[0]
        }),
        events[1] matches EventKind::ApprovalRequested { request } ==> {
            &&& request@.id == mint.approval_id@
            &&& request@.action_id == action.id
            &&& request@.tenant_id == action.tenant_id
            &&& request@.policy_decision_id == Some(mint.decision_id@)
            &&& request@.status == ApprovalStatus::Requested
            &&& request@.requested_by == agent.actor_id@
            &&& request@.requested_from == seq![agent.default_approver@]
            &&& request@.resolved_at is None
            &&& request@.resolved_by is None
        },
        events[1] matches EventKind::ActionApproved { action_id, approved_by, .. } ==> action_id@ == action.id
            && approved_by@ == agent.actor_id@,
        events[1] matches EventKind::ActionRejected { action_id, rejected_by, .. } ==> action_id@ == action.id
            && rejected_by@ == agent.actor_id@,
        events[1] is Signal <==> report.decision == PolicyEvaluationDecision::NeedsHumanReview || report.decision
            == PolicyEvaluationDecision::Escalate,
{
    reveal_with_fuel(crate::text::joined, 2);
    if report.reasons.len() == 1 {
        assert(report.reasons.drop_last() =~= Seq::<Seq<char>>::empty());
        assert(events[0]->PolicyDecisionRecorded_decision@.reason =~= report.reasons[0]);
    }
}

/// The names of two decisions differ.
pub proof fn law_decisions_have_names_of_their_own(one: PolicyEvaluationDecision, other: PolicyEvaluationDecision)
    ensures
        decision_text(one) == decision_text(other) <==> one == other,
{
    reveal_strlit("Allow");
    reveal_strlit("AutoApprove");
    reveal_strlit("RequireApproval");
    reveal_strlit("Reject");
    reveal_strlit("Block");
    reveal_strlit("Escalate");
    reveal_strlit("NeedsHumanReview");
    assert(decision_text(one) == decision_text(other) ==> decision_text(one).len() == decision_text(other).len()
        && decision_text(one)[0] == decision_text(other)[0]);
}

/// The agent answers proposals alone, and a proposal with the record of a decision and one event
/// more. A proposed action is approved only where no active policy of another kind than
/// automatic approval covers it, and one that a policy blocks is rejected.
pub proof fn law_agents_answer_as_the_policies_ask(
    events: Seq<EventKind>,
    agent: PolicyAgent,
    kind: EventKind,
    actions: ActionStoreModel,
    policies: PolicyStoreModel,
    mint: PolicyMint,
    id: Seq<char>,
)
    requires
        is_policy_reaction(events, agent, kind, actions, policies, mint),
    ensures
        events.len() == if kind is ActionProposed {
            2nat
        } else {
            0nat
        },
        kind is ActionProposed ==> ({
            let proposed = kind->ActionProposed_action@;
            let action = known_action(actions, proposed);
            &&& actions.actions.contains_key(proposed.id) ==> action == actions.actions[proposed.id]
            &&& !actions.actions.contains_key(proposed.id) ==> action == proposed
            &&& events[0] is PolicyDecisionRecorded
            &&& action.status == ActionStatus::Proposed && policies.policies.contains_key(id) && policy_matches(
                policies.policies[id],
                action,
            ) ==> {
                &&& policies.policies[id].kind != PolicyKindModel::AutoApproval ==> !(events[1] is ActionApproved)
                &&& policies.policies[id].kind == PolicyKindModel::Block ==> events[1] is ActionRejected
            }
        }),
{
    if kind is ActionProposed {
        let action = known_action(actions, kind->ActionProposed_action@);
        let report = choose|report: ReportModel| #[trigger]
            is_evaluation(report, policies, action) && answers(events, agent, action, report, mint);
        if action.status == ActionStatus::Proposed && policies.policies.contains_key(id) && policy_matches(
            policies.policies[id],
            action,
        ) {
            assert(candidate(policies, action, id));
            law_decision_follows_from_the_kinds(report, policies, action);
        }
    }
}

/// What follows a decision is what it asks for: an approval of the action, a request for approval
/// that goes to the approver and names the decision, a rejection for the reason of the decision, or
/// a signal that names the action and the decision.
pub proof fn law_answers_follow_the_decision(
    events: Seq<EventKind>,
    agent: PolicyAgent,
    action: ActionModel,
    report: ReportModel,
    mint: PolicyMint,
)
    requires
        answers(events, agent, action, report, mint),
    ensures
        events.len() == 2,
        report.decision == PolicyEvaluationDecision::Allow || report.decision == PolicyEvaluationDecision::AutoApprove
            ==> events[1] is ActionApproved && events[1]->ActionApproved_action_id@ == action.id
            && events[1]->ActionApproved_approved_by@ == agent.actor_id@ && events[1]->ActionApproved_reason is None,
        report.decision == PolicyEvaluationDecision::Reject || report.decision == PolicyEvaluationDecision::Block
            ==> events[1] is ActionRejected && events[1]->ActionRejected_action_id@ == action.id
            && events[1]->ActionRejected_rejected_by@ == agent.actor_id@ && events[1]->ActionRejected_reason@
            == events[0]->PolicyDecisionRecorded_decision@.reason,
        report.decision == PolicyEvaluationDecision::RequireApproval ==> events[1] is ApprovalRequested && ({
            let request = events[1]->ApprovalRequested_request@;
            &&& request.id == mint.approval_id@ && request.action_id == action.id && request.tenant_id == action.tenant_id
            &&& request.policy_decision_id == Some(events[0]->PolicyDecisionRecorded_decision@.id)
            &&& request.requested_from == seq![agent.default_approver@] && request.requested_by == agent.actor_id@
            &&& request.status == ApprovalStatus::Requested && request.requested_at == mint.now
            &&& request.resolved_at is None && request.resolved_by is None
        }),
        report.decision == PolicyEvaluationDecision::NeedsHumanReview || report.decision
            == PolicyEvaluationDecision::Escalate ==> events[1] is Signal && ({
            let payload = events[1]->Signal_payload@;
            &&& events[1]->Signal_source@ == "hydra.policy_agent"@
            &&& report.decision == PolicyEvaluationDecision::Escalate ==> events[1]->Signal_name@ == "policy_escalated"@
            &&& report.decision == PolicyEvaluationDecision::NeedsHumanReview ==> events[1]->Signal_name@
                == "policy_needs_human_review"@
            &&& payload.contains_key("action_id"@) && payload["action_id"@] == ValueModel::Text(action.id)
            &&& payload.contains_key("agent"@) && payload["agent"@] == ValueModel::Text(agent.actor_id@)
            &&& payload.contains_key("policy_decision_id"@) && payload["policy_decision_id"@] == ValueModel::Text(
                mint.decision_id@,
            )
            &&& report.matched_policy_id matches Some(id) ==> payload.contains_key("policy_id"@) && payload["policy_id"@]
                == ValueModel::Text(id)
            &&& payload.contains_key("policy_decision_kind"@) && payload["policy_decision_kind"@] == ValueModel::Text(
                decision_text(report.decision),
            )
        }),
{
    reveal_strlit("agent");
    reveal_strlit("action_id");
    reveal_strlit("policy_decision_id");
    reveal_strlit("policy_id");
    reveal_strlit("policy_decision_kind");
    reveal_strlit("reasons");
    assert("agent"@.len() == 5 && "action_id"@.len() == 9 && "policy_decision_id"@.len() == 18 && "policy_id"@.len() == 9
        && "policy_decision_kind"@.len() == 20 && "reasons"@.len() == 7);
    assert("action_id"@[0] != "policy_id"@[0]);
}

} // verus!
