//! Laws of the stores: what each event does to them, which are refused, and how batches are
//! taken.

use crate::action::ActionStatus;
use crate::action_store::ActionStoreModel;
use crate::causal_cell_store::CausalCellStoreModel;
use crate::epistemic::ClaimStatus;
use crate::epistemic_store::EpistemicModel;
use crate::error::ErrorModel;
use crate::event::{EventKind, EventModel};
use crate::identity::{
    identity_entity_kind_text, identity_link_kind_text, tenant_slot, IdentityAliasModel, IdentityEntityKindModel,
    IdentityEntityModel, IdentityLinkKindModel, IdentityLinkModel,
};
use crate::identity_link_store::{pair_key_of, IdentityLinkStoreModel};
use crate::identity_store::{
    alias_clash, alias_fault, canonical_key_of, with_aliases, without_aliases, without_bar, IdentityModel,
};
use crate::micromodel_store::MicroModelStoreModel;
use crate::policy::{ApprovalStatus, PolicyStatus};
use crate::policy_store::PolicyStoreModel;
use vstd::prelude::*;

verus! {

/// The action that an event is about, and the status that it gets.
pub open spec fn step_of_action(kind: EventKind) -> Option<(Seq<char>, ActionStatus)> {
    match kind {
        EventKind::ActionApproved { action_id, .. } => Some((action_id@, ActionStatus::Approved)),
        EventKind::ActionRejected { action_id, .. } => Some((action_id@, ActionStatus::Rejected)),
        EventKind::ActionExecuting { action_id } => Some((action_id@, ActionStatus::Executing)),
        EventKind::ActionExecuted { action_id } => Some((action_id@, ActionStatus::Executed)),
        EventKind::ActionFailed { action_id, .. } => Some((action_id@, ActionStatus::Failed)),
        EventKind::ActionCancelled { action_id, .. } => Some((action_id@, ActionStatus::Cancelled)),
        _ => None,
    }
}

/// An event about a known action sets its status and when it was last changed, and for an
/// approval by whom and when, for an execution when. What the action is for stays as it is, and
/// so does every other action. An event about an unknown action is refused.
pub proof fn law_actions_take_their_steps(store: ActionStoreModel, event: EventModel, t: Seq<char>)
    requires
        forall|t: Seq<char>| #[trigger] store.actions.contains_key(t) ==> store.actions[t].id == t,
    ensures
        step_of_action(event.kind) matches Some((id, status)) ==> {
            let before = store.actions[id];
            let next = store.after(event)->Ok_0;
            let now = next.actions[id];
            &&& store.after(event) is Ok <==> store.actions.contains_key(id)
            &&& store.after(event) is Ok ==> {
                &&& next.actions.contains_key(id)
                &&& now.status == status && now.updated_at == event.timestamp
                &&& now.id == id && now.kind == before.kind && now.targets == before.targets
                &&& now.related_claims == before.related_claims && now.proposed_by == before.proposed_by
                &&& now.tenant_id == before.tenant_id
                &&& event.kind matches EventKind::ActionApproved { approved_by, .. } ==> now.approved_by == Some(
                    approved_by@,
                ) && now.approved_at == Some(event.timestamp)
                &&& event.kind !is ActionApproved ==> now.approved_by == before.approved_by && now.approved_at
                    == before.approved_at
                &&& event.kind is ActionExecuted ==> now.executed_at == Some(event.timestamp)
                &&& event.kind !is ActionExecuted ==> now.executed_at == before.executed_at
                &&& t != id ==> next.actions[t] == store.actions[t] && (next.actions.contains_key(t)
                    <==> store.actions.contains_key(t))
                &&& next.outcomes == store.outcomes
            }
        },
        event.kind matches EventKind::ActionProposed { action } ==> {
            &&& store.after(event) is Ok
            &&& store.after(event)->Ok_0.actions.contains_key(action@.id)
            &&& store.after(event)->Ok_0.actions[action@.id] == action@
            &&& t != action@.id ==> store.after(event)->Ok_0.actions[t] == store.actions[t]
            &&& store.after(event)->Ok_0.outcomes == store.outcomes
        },
        event.kind matches EventKind::OutcomeObserved { outcome } ==> {
            &&& store.after(event) is Ok <==> store.actions.contains_key(outcome@.action_id)
            &&& store.after(event) is Ok ==> {
                &&& store.after(event)->Ok_0.outcomes.contains_key(outcome@.id)
                &&& store.after(event)->Ok_0.outcomes[outcome@.id] == outcome@
                &&& t != outcome@.id ==> store.after(event)->Ok_0.outcomes[t] == store.outcomes[t]
                &&& store.after(event)->Ok_0.actions == store.actions
            }
        },
        step_of_action(event.kind) is None && event.kind !is ActionProposed && event.kind !is OutcomeObserved
            ==> store.after(event) == Ok::<ActionStoreModel, ErrorModel>(store),
{
}

/// The claim that an event is about, and the status that it gets.
pub open spec fn step_of_claim(kind: EventKind) -> Option<(Seq<char>, ClaimStatus)> {
    match kind {
        EventKind::ClaimVerified { claim_id, .. } => Some((claim_id@, ClaimStatus::Verified)),
        EventKind::ClaimRetracted { claim_id, .. } => Some((claim_id@, ClaimStatus::Retracted)),
        EventKind::ClaimStaled { claim_id, .. } => Some((claim_id@, ClaimStatus::Stale)),
        EventKind::TopologyCommittedFromClaim { claim_id, .. } => Some((claim_id@, ClaimStatus::Operational)),
        _ => None,
    }
}

/// An event about a known claim sets its status and when it was last changed. What the claim
/// says and rests on stays as it is, and so does every other claim. An event about an unknown
/// claim is refused.
pub proof fn law_claims_take_their_steps(store: EpistemicModel, event: EventModel, t: Seq<char>)
    requires
        forall|t: Seq<char>| #[trigger] store.claims.contains_key(t) ==> store.claims[t].id == t,
    ensures
        step_of_claim(event.kind) matches Some((id, status)) ==> {
            let before = store.claims[id];
            let next = store.after(event)->Ok_0;
            let now = next.claims[id];
            &&& store.after(event) is Ok <==> store.claims.contains_key(id)
            &&& store.after(event) is Ok ==> {
                &&& next.claims.contains_key(id)
                &&& now.status == status && now.updated_at == event.timestamp && now.id == id
                &&& now.subject == before.subject && now.kind == before.kind && now.predicate == before.predicate
                &&& now.evidence_for == before.evidence_for && now.evidence_against == before.evidence_against
                &&& t != id ==> next.claims[t] == store.claims[t] && (next.claims.contains_key(t)
                    <==> store.claims.contains_key(t))
                &&& next.evidence == store.evidence
            }
        },
        event.kind matches EventKind::EvidenceAdded { evidence } ==> {
            &&& store.after(event) is Ok
            &&& store.after(event)->Ok_0.evidence.contains_key(evidence@.id)
            &&& store.after(event)->Ok_0.evidence[evidence@.id] == evidence@
            &&& t != evidence@.id ==> store.after(event)->Ok_0.evidence[t] == store.evidence[t]
            &&& store.after(event)->Ok_0.claims == store.claims
        },
        event.kind matches EventKind::ClaimProposed { claim } ==> {
            &&& store.after(event) is Ok
            &&& store.after(event)->Ok_0.claims.contains_key(claim@.id)
            &&& store.after(event)->Ok_0.claims[claim@.id] == claim@
            &&& t != claim@.id ==> store.after(event)->Ok_0.claims[t] == store.claims[t]
            &&& store.after(event)->Ok_0.evidence == store.evidence
        },
        step_of_claim(event.kind) is None && event.kind !is EvidenceAdded && event.kind !is ClaimProposed
            && event.kind !is ClaimSupported && event.kind !is ClaimDisputed ==> store.after(event) == Ok::<
            EpistemicModel,
            ErrorModel,
        >(store),
{
}

/// Evidence for a claim is listed with it once, and a claim that was only proposed is supported
/// from then on. Evidence against it is listed with it once, and disputes it. Both are refused
/// where the claim or the evidence is unknown.
pub proof fn law_evidence_bears_on_claims(store: EpistemicModel, event: EventModel, x: Seq<char>, t: Seq<char>)
    requires
        forall|t: Seq<char>| #[trigger] store.claims.contains_key(t) ==> store.claims[t].id == t,
    ensures
        event.kind matches EventKind::ClaimSupported { claim_id, evidence_id } ==> {
            let before = store.claims[claim_id@];
            let next = store.after(event)->Ok_0;
            let now = next.claims[claim_id@];
            &&& store.after(event) is Ok <==> store.claims.contains_key(claim_id@) && store.evidence.contains_key(evidence_id@)
            &&& store.after(event) is Ok ==> {
                &&& now.evidence_for.contains(x) <==> before.evidence_for.contains(x) || x == evidence_id@
                &&& before.evidence_for.no_duplicates() ==> now.evidence_for.no_duplicates()
                &&& now.evidence_against == before.evidence_against
                &&& before.status == ClaimStatus::Proposed ==> now.status == ClaimStatus::Supported
                &&& before.status != ClaimStatus::Proposed ==> now.status == before.status
                &&& now.subject == before.subject && now.predicate == before.predicate
                &&& t != claim_id@ ==> next.claims[t] == store.claims[t]
                &&& next.evidence == store.evidence
            }
        },
        event.kind matches EventKind::ClaimDisputed { claim_id, evidence_id, .. } ==> {
            let before = store.claims[claim_id@];
            let next = store.after(event)->Ok_0;
            let now = next.claims[claim_id@];
            &&& store.after(event) is Ok <==> store.claims.contains_key(claim_id@) && store.evidence.contains_key(evidence_id@)
            &&& store.after(event) is Ok ==> {
                &&& now.evidence_against.contains(x) <==> before.evidence_against.contains(x) || x == evidence_id@
                &&& before.evidence_against.no_duplicates() ==> now.evidence_against.no_duplicates()
                &&& now.evidence_for == before.evidence_for
                &&& now.status == ClaimStatus::Disputed
                &&& now.subject == before.subject && now.predicate == before.predicate
                &&& t != claim_id@ ==> next.claims[t] == store.claims[t]
                &&& next.evidence == store.evidence
            }
        },
{
    match event.kind {
        EventKind::ClaimSupported { claim_id, evidence_id } => {
            if store.after(event) is Ok {
                listing_adds_one(store.claims[claim_id@].evidence_for, evidence_id@, x);
            }
        },
        EventKind::ClaimDisputed { claim_id, evidence_id, .. } => {
            if store.after(event) is Ok {
                listing_adds_one(store.claims[claim_id@].evidence_against, evidence_id@, x);
            }
        },
        _ => {},
    }
}

proof fn listing_adds_one(list: Seq<Seq<char>>, t: Seq<char>, x: Seq<char>)
    ensures
        crate::epistemic_store::listed_once(list, t).contains(x) <==> list.contains(x) || x == t,
        list.no_duplicates() ==> crate::epistemic_store::listed_once(list, t).no_duplicates(),
{
    if !list.contains(t) {
        let all = list.push(t);
        assert(all[list.len() as int] == t);
        if list.contains(x) {
            assert(all[list.index_of(x)] == x);
        }
        if all.contains(x) {
            let i = all.index_of(x);
            if i < list.len() {
                assert(list[i] == x);
            }
        }
        if list.no_duplicates() {
            assert forall|i: int, j: int| 0 <= i < j < all.len() implies all[i] != all[j] by {
                assert(list.contains(list[i]));
            }
        }
    }
}

/// The approval that an event is about, the status that it gets, and who gave it.
pub open spec fn step_of_approval(kind: EventKind) -> Option<(Seq<char>, ApprovalStatus, Seq<char>)> {
    match kind {
        EventKind::ApprovalGranted { approval_id, approved_by } => Some(
            (approval_id@, ApprovalStatus::Approved, approved_by@),
        ),
        EventKind::ApprovalRejected { approval_id, rejected_by, .. } => Some(
            (approval_id@, ApprovalStatus::Rejected, rejected_by@),
        ),
        EventKind::ApprovalCancelled { approval_id, cancelled_by, .. } => Some(
            (approval_id@, ApprovalStatus::Cancelled, cancelled_by@),
        ),
        _ => None,
    }
}

/// An answer to a known request for approval sets its status, who gave it and when. What was
/// asked stays as it is, and so does every other request. An answer to an unknown request is
/// refused.
pub proof fn law_approvals_take_their_steps(store: PolicyStoreModel, event: EventModel, t: Seq<char>)
    requires
        forall|t: Seq<char>| #[trigger] store.approvals.contains_key(t) ==> store.approvals[t].id == t,
        forall|t: Seq<char>| #[trigger] store.policies.contains_key(t) ==> store.policies[t].id == t,
    ensures
        step_of_approval(event.kind) matches Some((id, status, by)) ==> {
            let before = store.approvals[id];
            let next = store.after(event)->Ok_0;
            let now = next.approvals[id];
            &&& store.after(event) is Ok <==> store.approvals.contains_key(id)
            &&& store.after(event) is Ok ==> {
                &&& next.approvals.contains_key(id)
                &&& now.status == status && now.resolved_by == Some(by) && now.resolved_at == Some(event.timestamp)
                &&& now.id == id && now.action_id == before.action_id && now.requested_from == before.requested_from
                &&& t != id ==> next.approvals[t] == store.approvals[t]
                &&& next.policies == store.policies && next.decisions == store.decisions
            }
        },
        event.kind matches EventKind::ApprovalRequested { request } ==> {
            &&& store.after(event) is Ok
            &&& store.after(event)->Ok_0.approvals.contains_key(request@.id)
            &&& store.after(event)->Ok_0.approvals[request@.id] == request@
            &&& t != request@.id ==> store.after(event)->Ok_0.approvals[t] == store.approvals[t]
            &&& store.after(event)->Ok_0.policies == store.policies
        },
        event.kind matches EventKind::PolicyRegistered { policy } ==> {
            &&& store.after(event) is Ok
            &&& store.after(event)->Ok_0.policies.contains_key(policy@.id)
            &&& store.after(event)->Ok_0.policies[policy@.id] == policy@
            &&& t != policy@.id ==> store.after(event)->Ok_0.policies[t] == store.policies[t]
            &&& store.after(event)->Ok_0.approvals == store.approvals
        },
        event.kind matches EventKind::PolicyDecisionRecorded { decision } ==> {
            &&& store.after(event) is Ok
            &&& store.after(event)->Ok_0.decisions.contains_key(decision@.id)
            &&& store.after(event)->Ok_0.decisions[decision@.id] == decision@
            &&& t != decision@.id ==> store.after(event)->Ok_0.decisions[t] == store.decisions[t]
            &&& store.after(event)->Ok_0.policies == store.policies
        },
        event.kind matches EventKind::PolicyDisabled { policy_id, .. } ==> {
            let before = store.policies[policy_id@];
            let next = store.after(event)->Ok_0;
            let now = next.policies[policy_id@];
            &&& store.after(event) is Ok <==> store.policies.contains_key(policy_id@)
            &&& store.after(event) is Ok ==> {
                &&& now.status == PolicyStatus::Disabled && now.updated_at == event.timestamp
                &&& now.id == policy_id@ && now.kind == before.kind && now.scope == before.scope
                &&& t != policy_id@ ==> next.policies[t] == store.policies[t]
                &&& next.approvals == store.approvals && next.decisions == store.decisions
            }
        },
        step_of_approval(event.kind) is None && event.kind !is ApprovalRequested && event.kind !is PolicyRegistered
            && event.kind !is PolicyDecisionRecorded && event.kind !is PolicyDisabled ==> store.after(event) == Ok::<
            PolicyStoreModel,
            ErrorModel,
        >(store),
{
}

/// What is recorded of models and of cells is kept under its identifier, and leaves all else as
/// it was; nothing is refused.
pub proof fn law_models_and_cells_are_kept(
    models: MicroModelStoreModel,
    cells: CausalCellStoreModel,
    event: EventModel,
    t: Seq<char>,
)
    ensures
        models.after(event) is Ok,
        cells.after(event) is Ok,
        ({
            let next = models.after(event)->Ok_0;
            let kept = cells.after(event)->Ok_0;
            &&& event.kind matches EventKind::MicroModelRegistered { model } ==> next.models.contains_key(model@.id)
                && next.models[model@.id] == model@ && (t != model@.id ==> next.models[t] == models.models[t])
            &&& event.kind matches EventKind::MicroModelStatusChanged { model_id, status, .. } ==> {
                &&& next.models.dom() == models.models.dom()
                &&& models.models.contains_key(model_id@) ==> next.models[model_id@].status == status
                    && next.models[model_id@].kind == models.models[model_id@].kind
                &&& t != model_id@ ==> next.models[t] == models.models[t]
            }
            &&& event.kind matches EventKind::MicroModelPredictionRecorded { prediction }
                ==> next.predictions.contains_key(prediction@.run_id) && next.predictions[prediction@.run_id]
                == prediction@ && (t != prediction@.run_id ==> next.predictions[t] == models.predictions[t])
            &&& event.kind matches EventKind::MicroModelObservationRecorded { observation }
                ==> next.observations.contains_key(observation@.run_id) && next.observations[observation@.run_id]
                == observation@ && (t != observation@.run_id ==> next.observations[t] == models.observations[t])
            &&& event.kind !is MicroModelRegistered && event.kind !is MicroModelStatusChanged ==> next.models
                == models.models
            &&& event.kind !is MicroModelPredictionRecorded ==> next.predictions == models.predictions
            &&& event.kind !is MicroModelObservationRecorded ==> next.observations == models.observations
            &&& event.kind matches EventKind::CausalCellCreated { cell } ==> kept.cells_by_id.contains_key(cell@.id)
                && kept.cells_by_id[cell@.id] == cell@ && (t != cell@.id ==> kept.cells_by_id[t] == cells.cells_by_id[t])
            &&& event.kind !is CausalCellCreated ==> kept == cells
        }),
{
    if let EventKind::MicroModelStatusChanged { model_id, .. } = event.kind {
        if models.models.contains_key(model_id@) {
            assert(models.after(event)->Ok_0.models.dom() =~= models.models.dom());
        }
    }
}

/// An alias that has no place among the keys: its source or its name is empty, or a part of it is
/// one of the words that stand for something missing.
pub open spec fn alias_is_faulty(alias: IdentityAliasModel) -> bool {
    ||| alias.source.len() == 0
    ||| alias.normalized.len() == 0
    ||| alias.source == "__system__"@ || alias.source == "__none__"@
    ||| alias.normalized == "__system__"@ || alias.normalized == "__none__"@
    ||| alias.namespace == Some("__system__"@) || alias.namespace == Some("__none__"@)
}

proof fn faults_are_found(aliases: Seq<IdentityAliasModel>)
    ensures
        alias_fault(aliases) is Some <==> exists|i: int| 0 <= i < aliases.len() && alias_is_faulty(#[trigger] aliases[i]),
    decreases aliases.len(),
{
    if aliases.len() > 0 {
        let rest = aliases.skip(1);
        faults_are_found(rest);
        assert(alias_is_faulty(aliases[0]) <==> aliases[0].fault() is Some);
        if exists|i: int| 0 <= i < rest.len() && alias_is_faulty(#[trigger] rest[i]) {
            let i = choose|i: int| 0 <= i < rest.len() && alias_is_faulty(#[trigger] rest[i]);
            assert(aliases[i + 1] == rest[i]);
        }
        if exists|i: int| 0 <= i < aliases.len() && alias_is_faulty(#[trigger] aliases[i]) {
            let i = choose|i: int| 0 <= i < aliases.len() && alias_is_faulty(#[trigger] aliases[i]);
            if i > 0 {
                assert(rest[i - 1] == aliases[i]);
            }
        }
    }
}

proof fn clashes_are_found(keys: Map<Seq<char>, Seq<char>>, tenant: Option<Seq<char>>, aliases: Seq<IdentityAliasModel>)
    ensures
        alias_clash(keys, tenant, aliases) is Some <==> exists|i: int|
            0 <= i < aliases.len() && keys.contains_key((#[trigger] aliases[i]).index_key(tenant)),
    decreases aliases.len(),
{
    if aliases.len() > 0 {
        let rest = aliases.skip(1);
        clashes_are_found(keys, tenant, rest);
        if exists|i: int| 0 <= i < rest.len() && keys.contains_key((#[trigger] rest[i]).index_key(tenant)) {
            let i = choose|i: int| 0 <= i < rest.len() && keys.contains_key((#[trigger] rest[i]).index_key(tenant));
            assert(aliases[i + 1] == rest[i]);
        }
        if exists|i: int| 0 <= i < aliases.len() && keys.contains_key((#[trigger] aliases[i]).index_key(tenant)) {
            let i = choose|i: int| 0 <= i < aliases.len() && keys.contains_key((#[trigger] aliases[i]).index_key(tenant));
            if i > 0 {
                assert(rest[i - 1] == aliases[i]);
            }
        }
    }
}

/// A new entity is refused just where its identifier, its canonical key or the key of one of its
/// aliases is taken, or one of its aliases is faulty.
pub proof fn law_entities_are_refused_for_a_reason(store: IdentityModel, entity: IdentityEntityModel)
    ensures
        store.refusal(entity) is Some <==> {
            ||| store.entities.contains_key(entity.id)
            ||| store.canonical.contains_key(canonical_key_of(entity))
            ||| exists|i: int| 0 <= i < entity.aliases.len() && alias_is_faulty(#[trigger] entity.aliases[i])
            ||| exists|i: int|
                0 <= i < entity.aliases.len() && store.aliases.contains_key(
                    (#[trigger] entity.aliases[i]).index_key(entity.tenant_id),
                )
        },
{
    faults_are_found(entity.aliases);
    clashes_are_found(store.aliases, entity.tenant_id, entity.aliases);
}

proof fn aliases_lead_to(
    keys: Map<Seq<char>, Seq<char>>,
    tenant: Option<Seq<char>>,
    aliases: Seq<IdentityAliasModel>,
    id: Seq<char>,
    k: Seq<char>,
)
    ensures
        ({
            let named = exists|i: int| 0 <= i < aliases.len() && (#[trigger] aliases[i]).index_key(tenant) == k;
            let with = with_aliases(keys, tenant, aliases, id);
            let without = without_aliases(keys, tenant, aliases);
            &&& named ==> with.contains_key(k) && with[k] == id && !without.contains_key(k)
            &&& !named ==> with[k] == keys[k] && without[k] == keys[k] && (with.contains_key(k) <==> keys.contains_key(k))
                && (without.contains_key(k) <==> keys.contains_key(k))
        }),
    decreases aliases.len(),
{
    if aliases.len() > 0 {
        let fewer = aliases.drop_last();
        aliases_lead_to(keys, tenant, fewer, id, k);
        assert(aliases[aliases.len() - 1] == aliases.last());
        if exists|i: int| 0 <= i < fewer.len() && (#[trigger] fewer[i]).index_key(tenant) == k {
            let i = choose|i: int| 0 <= i < fewer.len() && (#[trigger] fewer[i]).index_key(tenant) == k;
            assert(aliases[i].index_key(tenant) == k);
        }
        if exists|i: int| 0 <= i < aliases.len() && (#[trigger] aliases[i]).index_key(tenant) == k {
            let i = choose|i: int| 0 <= i < aliases.len() && (#[trigger] aliases[i]).index_key(tenant) == k;
            if i < fewer.len() {
                assert(fewer[i].index_key(tenant) == k);
            }
        }
    }
}

/// The key is that of one of the entity's aliases.
pub open spec fn is_alias_of(entity: IdentityEntityModel, k: Seq<char>) -> bool {
    exists|i: int| 0 <= i < entity.aliases.len() && (#[trigger] entity.aliases[i]).index_key(entity.tenant_id) == k
}

/// An entity that is put into the store is found by its identifier, its canonical key and each of
/// its aliases. The keys of what stood under its identifier before lead nowhere, unless they are
/// its own; all other keys and entities stay as they are.
pub proof fn law_entities_are_found_by_their_keys(
    store: IdentityModel,
    entity: IdentityEntityModel,
    k: Seq<char>,
    t: Seq<char>,
)
    ensures
        ({
            let next = store.inserted(entity);
            let known = store.entities.contains_key(entity.id);
            let before = store.entities[entity.id];
            &&& next.entities.contains_key(entity.id) && next.entities[entity.id] == entity
            &&& t != entity.id ==> next.entities[t] == store.entities[t] && (next.entities.contains_key(t)
                <==> store.entities.contains_key(t))
            &&& next.canonical.contains_key(canonical_key_of(entity)) && next.canonical[canonical_key_of(entity)]
                == entity.id
            &&& is_alias_of(entity, k) ==> next.aliases.contains_key(k) && next.aliases[k] == entity.id
            &&& !is_alias_of(entity, k) && known && is_alias_of(before, k) ==> !next.aliases.contains_key(k)
            &&& !is_alias_of(entity, k) && !(known && is_alias_of(before, k)) ==> next.aliases[k] == store.aliases[k] && (
            next.aliases.contains_key(k) <==> store.aliases.contains_key(k))
            &&& k != canonical_key_of(entity) && known && k == canonical_key_of(before) ==> !next.canonical.contains_key(k)
            &&& k != canonical_key_of(entity) && !(known && k == canonical_key_of(before)) ==> next.canonical[k]
                == store.canonical[k] && (next.canonical.contains_key(k) <==> store.canonical.contains_key(k))
        }),
{
    let known = store.entities.contains_key(entity.id);
    let before = store.entities[entity.id];
    if known {
        let cleared = store.without_keys(before);
        aliases_lead_to(store.aliases, before.tenant_id, before.aliases, before.id, k);
        aliases_lead_to(cleared.aliases, entity.tenant_id, entity.aliases, entity.id, k);
    } else {
        aliases_lead_to(store.aliases, entity.tenant_id, entity.aliases, entity.id, k);
    }
}

/// Only the creation of entities and of links changes what is known of identities, and neither
/// is refused once it is an event.
pub proof fn law_identities_change_by_their_events(
    store: IdentityModel,
    links: IdentityLinkStoreModel,
    event: EventModel,
    t: Seq<char>,
)
    ensures
        store.after(event) is Ok,
        links.after(event) is Ok,
        event.kind !is IdentityEntityCreated ==> store.after(event)->Ok_0 == store,
        event.kind !is IdentityLinkCreated ==> links.after(event)->Ok_0 == links,
        event.kind matches EventKind::IdentityEntityCreated { entity } ==> store.after(
            event,
        )->Ok_0.entities.contains_key(entity@.id) && store.after(event)->Ok_0.entities[entity@.id] == entity@,
        event.kind matches EventKind::IdentityLinkCreated { link } ==> {
            let next = links.after(event)->Ok_0;
            &&& next.links.contains_key(link@.id) && next.links[link@.id] == link@
            &&& next.pairs.contains_key(pair_key_of(link@)) && next.pairs[pair_key_of(link@)] == link@.id
            &&& t != link@.id ==> next.links[t] == links.links[t] && (next.links.contains_key(t)
                <==> links.links.contains_key(t))
            &&& t != pair_key_of(link@) && !(links.links.contains_key(link@.id) && t == pair_key_of(
                links.links[link@.id],
            )) ==> next.pairs[t] == links.pairs[t] && (next.pairs.contains_key(t) <==> links.pairs.contains_key(t))
        },
{
    if let EventKind::IdentityEntityCreated { entity } = event.kind {
        law_entities_are_found_by_their_keys(store, entity@, t, t);
    }
}

/// A new link is refused just where its identifier is taken, it goes from an entity to itself,
/// its kind is one of its own that is empty, reserved or a built-in one, one of its ends is not
/// an entity of its tenant, or the same link is there under another identifier.
pub proof fn law_links_are_refused_for_a_reason(
    store: IdentityLinkStoreModel,
    link: IdentityLinkModel,
    entities: IdentityModel,
)
    ensures
        store.refusal(link, entities) is Some <==> {
            ||| store.links.contains_key(link.id)
            ||| link.from_entity_id == link.to_entity_id
            ||| link.kind matches IdentityLinkKindModel::Custom(label) && (label.len() == 0 || label == "__system__"@
                || label == "__none__"@ || label == "depends_on"@ || label == "owned_by"@ || label == "same_as"@)
            ||| !(entities.entities.contains_key(link.from_entity_id) && entities.entities[link.from_entity_id].tenant_id
                == link.tenant_id)
            ||| !(entities.entities.contains_key(link.to_entity_id) && entities.entities[link.to_entity_id].tenant_id
                == link.tenant_id)
            ||| store.pairs.contains_key(pair_key_of(link))
        },
{
}

/// A batch of events goes to the store of actions one event after the other, up to the first that
/// is refused, and says why that was refused.
pub proof fn law_batches_of_actions_stop_at_a_refusal(store: ActionStoreModel, first: Seq<EventModel>, event: EventModel, rest: Seq<EventModel>)
    ensures
        store.after_all(Seq::empty()) == (store, Ok::<(), ErrorModel>(())),
        store.after_all(first).1 is Ok ==> ({
            let reached = store.after_all(first).0;
            match reached.after(event) {
                Ok(next) => store.after_all(first + seq![event] + rest) == next.after_all(rest),
                Err(e) => store.after_all(first + seq![event] + rest) == (reached, Err::<(), ErrorModel>(e)),
            }
        }),
    decreases first.len(),
{
    let all = first + seq![event] + rest;
    if first.len() == 0 {
        assert(all[0] == event);
        assert(all.skip(1) =~= rest);
    } else {
        assert(all[0] == first[0]);
        assert(all.skip(1) =~= first.skip(1) + seq![event] + rest);
        if let Ok(next) = store.after(first[0]) {
            law_batches_of_actions_stop_at_a_refusal(next, first.skip(1), event, rest);
        }
    }
}

/// A batch of events goes to the store of cells one event after the other, up to the first that
/// is refused, and says why that was refused.
pub proof fn law_batches_of_cells_stop_at_a_refusal(store: CausalCellStoreModel, first: Seq<EventModel>, event: EventModel, rest: Seq<EventModel>)
    ensures
        store.after_all(Seq::empty()) == (store, Ok::<(), ErrorModel>(())),
        store.after_all(first).1 is Ok ==> ({
            let reached = store.after_all(first).0;
            match reached.after(event) {
                Ok(next) => store.after_all(first + seq![event] + rest) == next.after_all(rest),
                Err(e) => store.after_all(first + seq![event] + rest) == (reached, Err::<(), ErrorModel>(e)),
            }
        }),
    decreases first.len(),
{
    let all = first + seq![event] + rest;
    if first.len() == 0 {
        assert(all[0] == event);
        assert(all.skip(1) =~= rest);
    } else {
        assert(all[0] == first[0]);
        assert(all.skip(1) =~= first.skip(1) + seq![event] + rest);
        if let Ok(next) = store.after(first[0]) {
            law_batches_of_cells_stop_at_a_refusal(next, first.skip(1), event, rest);
        }
    }
}

/// A batch of events goes to the store of claims one event after the other, up to the first that
/// is refused, and says why that was refused.
pub proof fn law_batches_of_claims_stop_at_a_refusal(store: EpistemicModel, first: Seq<EventModel>, event: EventModel, rest: Seq<EventModel>)
    ensures
        store.after_all(Seq::empty()) == (store, Ok::<(), ErrorModel>(())),
        store.after_all(first).1 is Ok ==> ({
            let reached = store.after_all(first).0;
            match reached.after(event) {
                Ok(next) => store.after_all(first + seq![event] + rest) == next.after_all(rest),
                Err(e) => store.after_all(first + seq![event] + rest) == (reached, Err::<(), ErrorModel>(e)),
            }
        }),
    decreases first.len(),
{
    let all = first + seq![event] + rest;
    if first.len() == 0 {
        assert(all[0] == event);
        assert(all.skip(1) =~= rest);
    } else {
        assert(all[0] == first[0]);
        assert(all.skip(1) =~= first.skip(1) + seq![event] + rest);
        if let Ok(next) = store.after(first[0]) {
            law_batches_of_claims_stop_at_a_refusal(next, first.skip(1), event, rest);
        }
    }
}

/// A batch of events goes to the store of entities one event after the other, up to the first that
/// is refused, and says why that was refused.
pub proof fn law_batches_of_entities_stop_at_a_refusal(store: IdentityModel, first: Seq<EventModel>, event: EventModel, rest: Seq<EventModel>)
    ensures
        store.after_all(Seq::empty()) == (store, Ok::<(), ErrorModel>(())),
        store.after_all(first).1 is Ok ==> ({
            let reached = store.after_all(first).0;
            match reached.after(event) {
                Ok(next) => store.after_all(first + seq![event] + rest) == next.after_all(rest),
                Err(e) => store.after_all(first + seq![event] + rest) == (reached, Err::<(), ErrorModel>(e)),
            }
        }),
    decreases first.len(),
{
    let all = first + seq![event] + rest;
    if first.len() == 0 {
        assert(all[0] == event);
        assert(all.skip(1) =~= rest);
    } else {
        assert(all[0] == first[0]);
        assert(all.skip(1) =~= first.skip(1) + seq![event] + rest);
        if let Ok(next) = store.after(first[0]) {
            law_batches_of_entities_stop_at_a_refusal(next, first.skip(1), event, rest);
        }
    }
}

/// A batch of events goes to the store of links one event after the other, up to the first that
/// is refused, and says why that was refused.
pub proof fn law_batches_of_links_stop_at_a_refusal(store: IdentityLinkStoreModel, first: Seq<EventModel>, event: EventModel, rest: Seq<EventModel>)
    ensures
        store.after_all(Seq::empty()) == (store, Ok::<(), ErrorModel>(())),
        store.after_all(first).1 is Ok ==> ({
            let reached = store.after_all(first).0;
            match reached.after(event) {
                Ok(next) => store.after_all(first + seq![event] + rest) == next.after_all(rest),
                Err(e) => store.after_all(first + seq![event] + rest) == (reached, Err::<(), ErrorModel>(e)),
            }
        }),
    decreases first.len(),
{
    let all = first + seq![event] + rest;
    if first.len() == 0 {
        assert(all[0] == event);
        assert(all.skip(1) =~= rest);
    } else {
        assert(all[0] == first[0]);
        assert(all.skip(1) =~= first.skip(1) + seq![event] + rest);
        if let Ok(next) = store.after(first[0]) {
            law_batches_of_links_stop_at_a_refusal(next, first.skip(1), event, rest);
        }
    }
}

/// A batch of events goes to the store of models one event after the other, up to the first that
/// is refused, and says why that was refused.
pub proof fn law_batches_of_models_stop_at_a_refusal(store: MicroModelStoreModel, first: Seq<EventModel>, event: EventModel, rest: Seq<EventModel>)
    ensures
        store.after_all(Seq::empty()) == (store, Ok::<(), ErrorModel>(())),
        store.after_all(first).1 is Ok ==> ({
            let reached = store.after_all(first).0;
            match reached.after(event) {
                Ok(next) => store.after_all(first + seq![event] + rest) == next.after_all(rest),
                Err(e) => store.after_all(first + seq![event] + rest) == (reached, Err::<(), ErrorModel>(e)),
            }
        }),
    decreases first.len(),
{
    let all = first + seq![event] + rest;
    if first.len() == 0 {
        assert(all[0] == event);
        assert(all.skip(1) =~= rest);
    } else {
        assert(all[0] == first[0]);
        assert(all.skip(1) =~= first.skip(1) + seq![event] + rest);
        if let Ok(next) = store.after(first[0]) {
            law_batches_of_models_stop_at_a_refusal(next, first.skip(1), event, rest);
        }
    }
}

/// A batch of events goes to the store of policies one event after the other, up to the first that
/// is refused, and says why that was refused.
pub proof fn law_batches_of_policies_stop_at_a_refusal(store: PolicyStoreModel, first: Seq<EventModel>, event: EventModel, rest: Seq<EventModel>)
    ensures
        store.after_all(Seq::empty()) == (store, Ok::<(), ErrorModel>(())),
        store.after_all(first).1 is Ok ==> ({
            let reached = store.after_all(first).0;
            match reached.after(event) {
                Ok(next) => store.after_all(first + seq![event] + rest) == next.after_all(rest),
                Err(e) => store.after_all(first + seq![event] + rest) == (reached, Err::<(), ErrorModel>(e)),
            }
        }),
    decreases first.len(),
{
    let all = first + seq![event] + rest;
    if first.len() == 0 {
        assert(all[0] == event);
        assert(all.skip(1) =~= rest);
    } else {
        assert(all[0] == first[0]);
        assert(all.skip(1) =~= first.skip(1) + seq![event] + rest);
        if let Ok(next) = store.after(first[0]) {
            law_batches_of_policies_stop_at_a_refusal(next, first.skip(1), event, rest);
        }
    }
}

proof fn split_at_the_bar(a: Seq<char>, x: Seq<char>, b: Seq<char>, y: Seq<char>)
    requires
        without_bar(a),
        without_bar(b),
        a + "|"@ + x == b + "|"@ + y,
    ensures
        a == b,
        x == y,
{
    reveal_strlit("|");
    let one = a + "|"@ + x;
    let other = b + "|"@ + y;
    assert(one[a.len() as int] == '|');
    assert(other[b.len() as int] == '|');
    assert(a.len() == b.len()) by {
        if a.len() < b.len() {
            assert(other[a.len() as int] == b[a.len() as int]);
        }
        if b.len() < a.len() {
            assert(one[b.len() as int] == a[b.len() as int]);
        }
    }
    assert forall|i: int| 0 <= i < a.len() implies a[i] == b[i] by {
        assert(one[i] == a[i]);
        assert(other[i] == b[i]);
    }
    assert(a =~= b);
    assert(one.len() == a.len() + 1 + x.len());
    assert(other.len() == b.len() + 1 + y.len());
    assert(x.len() == y.len());
    assert forall|i: int| 0 <= i < x.len() implies x[i] == y[i] by {
        assert(one[a.len() + 1 + i] == x[i]);
        assert(other[b.len() + 1 + i] == y[i]);
    }
    assert(x =~= y);
}

/// Aliases with the same key are of the same tenant, from the same source and namespace, and have
/// the same name, as long as the parts in front hold no bar.
pub proof fn law_alias_keys_tell_aliases_apart(
    one: IdentityAliasModel,
    other: IdentityAliasModel,
    tenant: Option<Seq<char>>,
    elsewhere: Option<Seq<char>>,
)
    requires
        one.index_key(tenant) == other.index_key(elsewhere),
        without_bar(tenant_slot(tenant)),
        without_bar(tenant_slot(elsewhere)),
        without_bar(one.source),
        without_bar(other.source),
        one.namespace is Some ==> without_bar(one.namespace->0) && one.namespace->0 != "__none__"@,
        other.namespace is Some ==> without_bar(other.namespace->0) && other.namespace->0 != "__none__"@,
    ensures
        tenant_slot(tenant) == tenant_slot(elsewhere),
        one.source == other.source,
        one.namespace == other.namespace,
        one.normalized == other.normalized,
{
    reveal_strlit("__none__");
    let a = tenant_slot(tenant);
    let b = tenant_slot(elsewhere);
    let m = match one.namespace {
        Some(n) => n,
        None => "__none__"@,
    };
    let n = match other.namespace {
        Some(n) => n,
        None => "__none__"@,
    };
    let x = one.source + "|"@ + (m + "|"@ + one.normalized);
    let y = other.source + "|"@ + (n + "|"@ + other.normalized);
    assert(one.index_key(tenant) =~= a + "|"@ + x);
    assert(other.index_key(elsewhere) =~= b + "|"@ + y);
    split_at_the_bar(a, x, b, y);
    split_at_the_bar(one.source, m + "|"@ + one.normalized, other.source, n + "|"@ + other.normalized);
    split_at_the_bar(m, one.normalized, n, other.normalized);
}

/// Entities with the same canonical key are of the same tenant and of kinds with the same name, and
/// are called the same, as long as the parts in front hold no bar.
pub proof fn law_canonical_keys_tell_entities_apart(one: IdentityEntityModel, other: IdentityEntityModel)
    requires
        canonical_key_of(one) == canonical_key_of(other),
        without_bar(tenant_slot(one.tenant_id)),
        without_bar(tenant_slot(other.tenant_id)),
        without_bar(identity_entity_kind_text(one.kind)),
        without_bar(identity_entity_kind_text(other.kind)),
    ensures
        tenant_slot(one.tenant_id) == tenant_slot(other.tenant_id),
        identity_entity_kind_text(one.kind) == identity_entity_kind_text(other.kind),
        one.canonical_key == other.canonical_key,
{
    let x = identity_entity_kind_text(one.kind) + "|"@ + one.canonical_key;
    let y = identity_entity_kind_text(other.kind) + "|"@ + other.canonical_key;
    assert(canonical_key_of(one) =~= tenant_slot(one.tenant_id) + "|"@ + x);
    assert(canonical_key_of(other) =~= tenant_slot(other.tenant_id) + "|"@ + y);
    split_at_the_bar(tenant_slot(one.tenant_id), x, tenant_slot(other.tenant_id), y);
    split_at_the_bar(
        identity_entity_kind_text(one.kind),
        one.canonical_key,
        identity_entity_kind_text(other.kind),
        other.canonical_key,
    );
}

/// Links with the same pair are of the same tenant, go from the same entity to the same entity, and
/// are of kinds with the same name, as long as the parts in front hold no bar.
pub proof fn law_pairs_tell_links_apart(one: IdentityLinkModel, other: IdentityLinkModel)
    requires
        pair_key_of(one) == pair_key_of(other),
        without_bar(tenant_slot(one.tenant_id)),
        without_bar(tenant_slot(other.tenant_id)),
        without_bar(one.from_entity_id),
        without_bar(other.from_entity_id),
        without_bar(one.to_entity_id),
        without_bar(other.to_entity_id),
    ensures
        tenant_slot(one.tenant_id) == tenant_slot(other.tenant_id),
        one.from_entity_id == other.from_entity_id,
        one.to_entity_id == other.to_entity_id,
        identity_link_kind_text(one.kind) == identity_link_kind_text(other.kind),
{
    let p = one.to_entity_id + "|"@ + identity_link_kind_text(one.kind);
    let q = other.to_entity_id + "|"@ + identity_link_kind_text(other.kind);
    let x = one.from_entity_id + "|"@ + p;
    let y = other.from_entity_id + "|"@ + q;
    assert(pair_key_of(one) =~= tenant_slot(one.tenant_id) + "|"@ + x);
    assert(pair_key_of(other) =~= tenant_slot(other.tenant_id) + "|"@ + y);
    split_at_the_bar(tenant_slot(one.tenant_id), x, tenant_slot(other.tenant_id), y);
    split_at_the_bar(one.from_entity_id, p, other.from_entity_id, q);
    split_at_the_bar(
        one.to_entity_id,
        identity_link_kind_text(one.kind),
        other.to_entity_id,
        identity_link_kind_text(other.kind),
    );
}

/// The built-in kinds of entities and of links have names of their own; a kind of one's own has
/// the name that it is given.
pub proof fn law_kinds_have_names_of_their_own(label: Seq<char>)
    ensures
        identity_entity_kind_text(IdentityEntityKindModel::Custom(label)) == label,
        identity_link_kind_text(IdentityLinkKindModel::Custom(label)) == label,
        identity_entity_kind_text(IdentityEntityKindModel::Dataset) != identity_entity_kind_text(
            IdentityEntityKindModel::Service,
        ),
        identity_entity_kind_text(IdentityEntityKindModel::Dataset) != identity_entity_kind_text(
            IdentityEntityKindModel::Source,
        ),
        identity_entity_kind_text(IdentityEntityKindModel::Service) != identity_entity_kind_text(
            IdentityEntityKindModel::Source,
        ),
        identity_link_kind_text(IdentityLinkKindModel::DependsOn) != identity_link_kind_text(
            IdentityLinkKindModel::OwnedBy,
        ),
        identity_link_kind_text(IdentityLinkKindModel::DependsOn) != identity_link_kind_text(
            IdentityLinkKindModel::SameAs,
        ),
        identity_link_kind_text(IdentityLinkKindModel::OwnedBy) != identity_link_kind_text(IdentityLinkKindModel::SameAs),
{
    reveal_strlit("dataset");
    reveal_strlit("service");
    reveal_strlit("source");
    reveal_strlit("depends_on");
    reveal_strlit("owned_by");
    reveal_strlit("same_as");
    assert("dataset"@[0] != "service"@[0]);
    assert("source"@.len() != "service"@.len());
    assert("source"@.len() != "dataset"@.len());
    assert("depends_on"@.len() == 10 && "owned_by"@.len() == 8 && "same_as"@.len() == 7);
}

} // verus!
