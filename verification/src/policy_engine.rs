//! Evaluation of policies for actions.

use crate::action::{Action, ActionKind, ActionKindModel, ActionModel, ActionStatus};
use crate::ids::{holds_id, opt_text, ActionId, PolicyId};
use crate::policy::{Policy, PolicyKind, PolicyKindModel, PolicyModel, PolicyScope, PolicyScopeModel, PolicyStatus};
use crate::policy_store::{PolicyStore, PolicyStoreModel};
use crate::table::{lists_in_order, views};
use crate::text::{quote, quoted, str_same, string_texts, text_less};
use vstd::prelude::*;
use vstd::string::StringExecFns;

verus! {

/// What the policies say of an action.
#[derive(Debug, Clone, Copy, PartialEq, Eq, Structural)]
pub enum PolicyEvaluationDecision {
    Allow,
    AutoApprove,
    RequireApproval,
    Reject,
    Block,
    Escalate,
    NeedsHumanReview,
}

/// The decision on an action, with the policy that it rests on and the reasons.
#[derive(Debug, PartialEq)]
pub struct PolicyEvaluationReport {
    pub action_id: ActionId,
    pub decision: PolicyEvaluationDecision,
    pub matched_policy_id: Option<PolicyId>,
    pub matched_policy_kind: Option<PolicyKind>,
    pub reasons: Vec<String>,
}

/// What a report stands for.
pub struct ReportModel {
    pub action_id: Seq<char>,
    pub decision: PolicyEvaluationDecision,
    pub matched_policy_id: Option<Seq<char>>,
    pub matched_policy_kind: Option<PolicyKindModel>,
    pub reasons: Seq<Seq<char>>,
}

impl View for PolicyEvaluationReport {
    type V = ReportModel;

    open spec fn view(&self) -> ReportModel {
        ReportModel {
            action_id: self.action_id@,
            decision: self.decision,
            matched_policy_id: opt_text(self.matched_policy_id),
            matched_policy_kind: match self.matched_policy_kind {
                Some(kind) => Some(kind@),
                None => None,
            },
            reasons: string_texts(self.reasons@),
        }
    }
}

impl PolicyEvaluationReport {
    /// Whether the action may go ahead.
    pub fn is_allowed(&self) -> (r: bool)
        ensures
            r == (self.decision == PolicyEvaluationDecision::Allow || self.decision
                == PolicyEvaluationDecision::AutoApprove),
    {
        self.decision == PolicyEvaluationDecision::Allow || self.decision == PolicyEvaluationDecision::AutoApprove
    }

    /// Whether someone has to approve the action.
    pub fn requires_approval(&self) -> (r: bool)
        ensures
            r == (self.decision == PolicyEvaluationDecision::RequireApproval),
    {
        self.decision == PolicyEvaluationDecision::RequireApproval
    }

    /// Whether the action must not go ahead.
    pub fn is_blocked(&self) -> (r: bool)
        ensures
            r == (self.decision == PolicyEvaluationDecision::Reject || self.decision
                == PolicyEvaluationDecision::Block),
    {
        self.decision == PolicyEvaluationDecision::Reject || self.decision == PolicyEvaluationDecision::Block
    }
}

/// What a policy of a kind decides.
pub open spec fn decision_of_kind(kind: PolicyKindModel) -> PolicyEvaluationDecision {
    match kind {
        PolicyKindModel::AutoApproval => PolicyEvaluationDecision::AutoApprove,
        PolicyKindModel::Block => PolicyEvaluationDecision::Block,
        PolicyKindModel::Escalation => PolicyEvaluationDecision::Escalate,
        PolicyKindModel::ReviewRequirement => PolicyEvaluationDecision::NeedsHumanReview,
        _ => PolicyEvaluationDecision::RequireApproval,
    }
}

/// The place of a decision in the order of precedence; the lowest wins.
pub open spec fn precedence(decision: PolicyEvaluationDecision) -> int {
    match decision {
        PolicyEvaluationDecision::Block => 0,
        PolicyEvaluationDecision::Reject => 1,
        PolicyEvaluationDecision::RequireApproval => 2,
        PolicyEvaluationDecision::NeedsHumanReview => 3,
        PolicyEvaluationDecision::Escalate => 4,
        PolicyEvaluationDecision::AutoApprove => 5,
        PolicyEvaluationDecision::Allow => 6,
    }
}

/// The text by which a scope names a kind of action.
pub open spec fn action_kind_text(kind: ActionKindModel) -> Seq<char> {
    match kind {
        ActionKindModel::Notify => "Notify"@,
        ActionKindModel::CreateTicket => "CreateTicket"@,
        ActionKindModel::AssignOwner => "AssignOwner"@,
        ActionKindModel::RequestEvidence => "RequestEvidence"@,
        ActionKindModel::Quarantine => "Quarantine"@,
        ActionKindModel::Backfill => "Backfill"@,
        ActionKindModel::Repair => "Repair"@,
        ActionKindModel::Approve => "Approve"@,
        ActionKindModel::Reject => "Reject"@,
        ActionKindModel::ExecuteWorkflow => "ExecuteWorkflow"@,
        ActionKindModel::PostLedgerEntry => "PostLedgerEntry"@,
        ActionKindModel::RunPayroll => "RunPayroll"@,
        ActionKindModel::Custom(value) => "Custom:"@ + value,
    }
}

/// The text that shows a scope in reasons.
pub open spec fn scope_text(scope: PolicyScopeModel) -> Seq<char> {
    match scope {
        PolicyScopeModel::AnyAction => "AnyAction"@,
        PolicyScopeModel::ActionKind(value) => "ActionKind("@ + quoted(value) + ")"@,
        PolicyScopeModel::Actor(id) => "Actor(ActorId("@ + quoted(id) + "))"@,
        PolicyScopeModel::Claim(id) => "Claim(ClaimId("@ + quoted(id) + "))"@,
        PolicyScopeModel::Tenant(id) => "Tenant(TenantId("@ + quoted(id) + "))"@,
        PolicyScopeModel::Custom(value) => "Custom("@ + quoted(value) + ")"@,
    }
}

/// Whether a policy is in force and its scope covers the action.
pub open spec fn policy_matches(policy: PolicyModel, action: ActionModel) -> bool {
    &&& policy.status == PolicyStatus::Active
    &&& match policy.scope {
        PolicyScopeModel::AnyAction => true,
        PolicyScopeModel::ActionKind(value) => value == action_kind_text(action.kind),
        PolicyScopeModel::Actor(id) => id == action.proposed_by,
        PolicyScopeModel::Claim(id) => action.related_claims.contains(id),
        PolicyScopeModel::Tenant(id) => action.tenant_id == Some(id),
        PolicyScopeModel::Custom(_) => false,
    }
}

/// The report that rests on a policy.
pub open spec fn report_on(action: ActionModel, policy: PolicyModel) -> ReportModel {
    ReportModel {
        action_id: action.id,
        decision: decision_of_kind(policy.kind),
        matched_policy_id: Some(policy.id),
        matched_policy_kind: Some(policy.kind),
        reasons: seq!["matched active policy '"@ + policy.name + "' with scope "@ + scope_text(policy.scope)],
    }
}

/// The report that rests on no policy.
pub open spec fn report_without_policy(action: ActionModel, reason: Seq<char>) -> ReportModel {
    ReportModel {
        action_id: action.id,
        decision: PolicyEvaluationDecision::Allow,
        matched_policy_id: None,
        matched_policy_kind: None,
        reasons: seq![reason],
    }
}

/// Whether a policy of the store matches the action.
pub open spec fn candidate(store: PolicyStoreModel, action: ActionModel, id: Seq<char>) -> bool {
    store.policies.contains_key(id) && policy_matches(store.policies[id], action)
}

/// The policy decides: it matches, no other that matches takes precedence, and of those
/// with equal precedence it has the least identifier.
pub open spec fn decides(store: PolicyStoreModel, action: ActionModel, id: Seq<char>) -> bool {
    &&& candidate(store, action, id)
    &&& forall|other: Seq<char>| #[trigger]
        candidate(store, action, other) && other != id ==> {
            let p = precedence(decision_of_kind(store.policies[id].kind));
            let q = precedence(decision_of_kind(store.policies[other].kind));
            p < q || (p == q && text_less(id, other))
        }
}

/// The report is the one owed for the action: an action that is not proposed is not gated,
/// one that no policy matches is allowed, and any other rests on the policy that decides.
pub open spec fn is_evaluation(report: ReportModel, store: PolicyStoreModel, action: ActionModel) -> bool {
    if action.status != ActionStatus::Proposed {
        report == report_without_policy(
            action,
            "action is not Proposed; policy engine does not gate this lifecycle state"@,
        )
    } else if forall|id: Seq<char>| !#[trigger] candidate(store, action, id) {
        report == report_without_policy(action, "no active matching policy found"@)
    } else {
        exists|id: Seq<char>| #[trigger] decides(store, action, id) && report == report_on(action, store.policies[id])
    }
}

/// What a policy of a kind decides.
pub fn decision_for_policy_kind(kind: &PolicyKind) -> (r: PolicyEvaluationDecision)
    ensures
        r == decision_of_kind(kind@),
{
    match kind {
        PolicyKind::AutoApproval => PolicyEvaluationDecision::AutoApprove,
        PolicyKind::HumanApproval => PolicyEvaluationDecision::RequireApproval,
        PolicyKind::Block => PolicyEvaluationDecision::Block,
        PolicyKind::Escalation => PolicyEvaluationDecision::Escalate,
        PolicyKind::ReviewRequirement => PolicyEvaluationDecision::NeedsHumanReview,
        PolicyKind::Compliance => PolicyEvaluationDecision::RequireApproval,
        PolicyKind::Security => PolicyEvaluationDecision::RequireApproval,
        PolicyKind::Finance => PolicyEvaluationDecision::RequireApproval,
        PolicyKind::Payroll => PolicyEvaluationDecision::RequireApproval,
        PolicyKind::Custom(_) => PolicyEvaluationDecision::RequireApproval,
    }
}

/// The place of a decision in the order of precedence; the lowest wins.
pub fn decision_precedence(decision: &PolicyEvaluationDecision) -> (r: u8)
    ensures
        r == precedence(*decision),
{
    match decision {
        PolicyEvaluationDecision::Block => 0,
        PolicyEvaluationDecision::Reject => 1,
        PolicyEvaluationDecision::RequireApproval => 2,
        PolicyEvaluationDecision::NeedsHumanReview => 3,
        PolicyEvaluationDecision::Escalate => 4,
        PolicyEvaluationDecision::AutoApprove => 5,
        PolicyEvaluationDecision::Allow => 6,
    }
}

/// The text by which a scope names a kind of action.
pub fn action_kind_key(kind: &ActionKind) -> (r: String)
    ensures
        r@ == action_kind_text(kind@),
{
    match kind {
        ActionKind::Notify => "Notify".to_owned(),
        ActionKind::CreateTicket => "CreateTicket".to_owned(),
        ActionKind::AssignOwner => "AssignOwner".to_owned(),
        ActionKind::RequestEvidence => "RequestEvidence".to_owned(),
        ActionKind::Quarantine => "Quarantine".to_owned(),
        ActionKind::Backfill => "Backfill".to_owned(),
        ActionKind::Repair => "Repair".to_owned(),
        ActionKind::Approve => "Approve".to_owned(),
        ActionKind::Reject => "Reject".to_owned(),
        ActionKind::ExecuteWorkflow => "ExecuteWorkflow".to_owned(),
        ActionKind::PostLedgerEntry => "PostLedgerEntry".to_owned(),
        ActionKind::RunPayroll => "RunPayroll".to_owned(),
        ActionKind::Custom(value) => {
            let mut r = "Custom:".to_owned();
            r.append(value.as_str());
            r
        },
    }
}

fn show_scope(scope: &PolicyScope) -> (r: String)
    ensures
        r@ == scope_text(scope@),
{
    match scope {
        PolicyScope::AnyAction => "AnyAction".to_owned(),
        PolicyScope::ActionKind(value) => {
            let mut r = "ActionKind(".to_owned();
            r.append(quote(value.as_str()).as_str());
            r.append(")");
            r
        },
        PolicyScope::Actor(id) => {
            let mut r = "Actor(ActorId(".to_owned();
            r.append(quote(id.as_str()).as_str());
            r.append("))");
            r
        },
        PolicyScope::Claim(id) => {
            let mut r = "Claim(ClaimId(".to_owned();
            r.append(quote(id.as_str()).as_str());
            r.append("))");
            r
        },
        PolicyScope::Tenant(id) => {
            let mut r = "Tenant(TenantId(".to_owned();
            r.append(quote(id.as_str()).as_str());
            r.append("))");
            r
        },
        PolicyScope::Custom(value) => {
            let mut r = "Custom(".to_owned();
            r.append(quote(value.as_str()).as_str());
            r.append(")");
            r
        },
    }
}

fn one_reason(reason: String) -> (r: Vec<String>)
    ensures
        string_texts(r@) == seq![reason@],
{
    let mut r: Vec<String> = Vec::new();
    let ghost t = reason@;
    r.push(reason);
    assert(string_texts(r@) =~= seq![t]);
    r
}

/// Evaluates policies. Of the policies that match an action the most restrictive decides:
/// block, reject, require approval, need review, escalate, approve, allow.
#[derive(Debug, Clone, Copy)]
pub struct PolicyEngine;

impl Default for PolicyEngine {
    fn default() -> (r: Self)
        ensures
            r == PolicyEngine,
    {
        PolicyEngine
    }
}

impl PolicyEngine {
    /// The engine. It holds no state.
    pub fn new() -> (r: Self)
        ensures
            r == PolicyEngine,
    {
        PolicyEngine
    }

    /// Whether a policy is in force and its scope covers the action.
    pub fn policy_matches_action(&self, policy: &Policy, action: &Action) -> (r: bool)
        ensures
            r == policy_matches(policy@, action@),
    {
        if policy.status != PolicyStatus::Active {
            return false;
        }
        match &policy.scope {
            PolicyScope::AnyAction => true,
            PolicyScope::ActionKind(value) => str_same(value.as_str(), action_kind_key(&action.kind).as_str()),
            PolicyScope::Actor(actor_id) => actor_id.same(&action.proposed_by),
            PolicyScope::Tenant(tenant_id) => match &action.tenant_id {
                Some(tenant) => tenant.same(tenant_id),
                None => false,
            },
            PolicyScope::Claim(claim_id) => holds_id(&action.related_claims, claim_id),
            PolicyScope::Custom(_) => false,
        }
    }

    fn decide(&self, action: &Action, policy: &Policy) -> (r: PolicyEvaluationReport)
        ensures
            r@ == report_on(action@, policy@),
    {
        let mut reason = "matched active policy '".to_owned();
        reason.append(policy.name.as_str());
        reason.append("' with scope ");
        reason.append(show_scope(&policy.scope).as_str());
        PolicyEvaluationReport {
            action_id: action.id.clone(),
            decision: decision_for_policy_kind(&policy.kind),
            matched_policy_id: Some(policy.id.clone()),
            matched_policy_kind: Some(policy.kind.clone()),
            reasons: one_reason(reason),
        }
    }

    fn allow(&self, action: &Action, reason: &str) -> (r: PolicyEvaluationReport)
        ensures
            r@ == report_without_policy(action@, reason@),
    {
        PolicyEvaluationReport {
            action_id: action.id.clone(),
            decision: PolicyEvaluationDecision::Allow,
            matched_policy_id: None,
            matched_policy_kind: None,
            reasons: one_reason(reason.to_owned()),
        }
    }

    /// Evaluates the policies of the store for an action.
    pub fn evaluate_action(&self, store: &PolicyStore, action: &Action) -> (r: PolicyEvaluationReport)
        requires
            store.inv(),
        ensures
            is_evaluation(r@, store@, action@),
    {
        if action.status != ActionStatus::Proposed {
            return self.allow(
                action,
                "action is not Proposed; policy engine does not gate this lifecycle state",
            );
        }
        let active = store.active_policies();
        let ghost wanted = Set::new(
            |t: Seq<char>| store@.policies.contains_key(t) && store@.policies[t].status == PolicyStatus::Active,
        );
        let ghost ids = choose|ids: Seq<Seq<char>>| #[trigger]
            lists_in_order(views(active@), store@.policies, wanted, ids);
        let mut best: Option<usize> = None;
        let mut i: usize = 0;
        while i < active.len()
            invariant
                store.inv(),
                i <= active@.len(),
                lists_in_order(views(active@), store@.policies, wanted, ids),
                forall|t: Seq<char>| #[trigger] wanted.contains(t) ==> store@.policies.contains_key(t),
                match best {
                    None => forall|j: int| 0 <= j < i ==> !candidate(store@, action@, #[trigger] ids[j]),
                    Some(b) => {
                        &&& b < i
                        &&& candidate(store@, action@, ids[b as int])
                        &&& forall|j: int|
                            0 <= j < i && j != b && candidate(store@, action@, #[trigger] ids[j]) ==> {
                                let p = precedence(decision_of_kind(store@.policies[ids[b as int]].kind));
                                let q = precedence(decision_of_kind(store@.policies[ids[j]].kind));
                                p < q || (p == q && b < j)
                            }
                    },
                },
            decreases active@.len() - i,
        {
            proof {
                assert(views(active@)[i as int] == store@.policies[ids[i as int]]);
                assert(ids.contains(ids[i as int]));
                assert(wanted.contains(ids[i as int]));
            }
            if self.policy_matches_action(active[i], action) {
                match best {
                    None => {
                        best = Some(i);
                    },
                    Some(b) => {
                        assert(views(active@)[b as int] == store@.policies[ids[b as int]]);
                        let current = decision_precedence(&decision_for_policy_kind(&active[b].kind));
                        let next = decision_precedence(&decision_for_policy_kind(&active[i].kind));
                        if next < current {
                            best = Some(i);
                        }
                    },
                }
            }
            i += 1;
        }
        proof {
            assert forall|id: Seq<char>| #[trigger] candidate(store@, action@, id) implies ids.contains(id) by {
                assert(wanted.contains(id));
            }
        }
        match best {
            None => {
                assert forall|id: Seq<char>| !#[trigger] candidate(store@, action@, id) by {
                    if candidate(store@, action@, id) {
                        let j = ids.index_of(id);
                        assert(!candidate(store@, action@, ids[j]));
                    }
                }
                self.allow(action, "no active matching policy found")
            },
            Some(b) => {
                proof {
                    let id = ids[b as int];
                    assert(views(active@)[b as int] == store@.policies[id]);
                    assert forall|other: Seq<char>| #[trigger] candidate(store@, action@, other) && other != id implies {
                        let p = precedence(decision_of_kind(store@.policies[id].kind));
                        let q = precedence(decision_of_kind(store@.policies[other].kind));
                        p < q || (p == q && text_less(id, other))
                    } by {
                        let j = ids.index_of(other);
                        assert(ids[j] == other);
                        if b < j {
                            assert(text_less(ids[b as int], ids[j]));
                        }
                    }
                    assert(decides(store@, action@, id));
                }
                self.decide(action, active[b])
            },
        }
    }
}

/// At most one policy decides.
pub proof fn law_one_policy_decides(store: PolicyStoreModel, action: ActionModel, one: Seq<char>, other: Seq<char>)
    requires
        decides(store, action, one),
        decides(store, action, other),
    ensures
        one == other,
{
    if one != other {
        assert(candidate(store, action, one));
        assert(candidate(store, action, other));
        if text_less(one, other) {
            crate::text::text_less_antisymmetric(one, other);
        }
    }
}

/// An active policy that blocks and matches a proposed action always prevails, whatever
/// other policies there are.
pub proof fn law_block_prevails(report: ReportModel, store: PolicyStoreModel, action: ActionModel, id: Seq<char>)
    requires
        action.status == ActionStatus::Proposed,
        candidate(store, action, id),
        store.policies[id].kind == PolicyKindModel::Block,
        is_evaluation(report, store, action),
    ensures
        report.decision == PolicyEvaluationDecision::Block,
{
    let winner = choose|w: Seq<char>| #[trigger] decides(store, action, w) && report == report_on(action, store.policies[w]);
    assert(candidate(store, action, winner));
}

/// No policy that matches is more restrictive than the decision.
pub proof fn law_decision_is_the_most_restrictive(
    report: ReportModel,
    store: PolicyStoreModel,
    action: ActionModel,
    id: Seq<char>,
)
    requires
        action.status == ActionStatus::Proposed,
        candidate(store, action, id),
        is_evaluation(report, store, action),
    ensures
        precedence(report.decision) <= precedence(decision_of_kind(store.policies[id].kind)),
{
    let winner = choose|w: Seq<char>| #[trigger] decides(store, action, w) && report == report_on(action, store.policies[w]);
    assert(candidate(store, action, winner));
}

} // verus!
