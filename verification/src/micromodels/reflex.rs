//! From a prediction to evidence, a claim and an action.

use crate::action::{
    action_target_models, Action, ActionKind, ActionKindModel, ActionModel, ActionStatus, ActionTarget,
};
use crate::epistemic::{
    Claim, ClaimKind, ClaimKindModel, ClaimModel, ClaimObject, ClaimStatus, ClaimSubject, Evidence, EvidenceModel,
    EvidencePayload, EvidencePayloadModel, EvidenceSource, EvidenceSourceModel,
};
use crate::event::EventKind;
use crate::ids::{texts, ActionId, ActorId, ClaimId, EventId, EvidenceId, Id, MicroModelId};
use crate::micromodel::{
    MicroModelDefinition, MicroModelDefinitionModel, MicroModelKind, MicroModelKindModel, MicroModelPrediction,
    MicroModelPredictionModel, MicroModelStatus,
};
use crate::micromodel_store::MicroModelStore;
use crate::number::Number;
use crate::text::{opt_chars, str_same};
use crate::time::Timestamp;
use crate::value::Properties;
use vstd::prelude::*;

verus! {

/// What a model wants said and done about a prediction.
pub struct MicroModelReflexParts {
    pub actionable: bool,
    pub confidence: Number,
    pub claim_subject: ClaimSubject,
    pub claim_predicate: String,
    pub claim_object: ClaimObject,
    pub evidence_payload_data: Properties,
    pub action_target: ActionTarget,
    pub action_payload: Properties,
}

/// The identifiers of the evidence and the claim, and of the events that brought them.
pub struct ReflexBridgeIds {
    pub evidence_id: EvidenceId,
    pub evidence_event_id: EventId,
    pub claim_id: ClaimId,
    pub claim_event_id: EventId,
}

/// Evidence, and the claim that rests on it.
pub struct ReflexClaim {
    pub evidence: Evidence,
    pub claim: Claim,
}

/// The definition of a built-in model.
pub open spec fn builtin(
    id: Seq<char>,
    kind: MicroModelKindModel,
    name: Seq<char>,
    actor: Seq<char>,
    now: Timestamp,
) -> MicroModelDefinitionModel {
    MicroModelDefinitionModel {
        id,
        kind,
        name,
        version: 1,
        status: MicroModelStatus::Registered,
        input_schema: "[]"@,
        output_schema: "[]"@,
        created_by: actor,
        created_at: now,
    }
}

/// The events that register a built-in model and put it to use; none where it is known.
pub fn ensure_builtin_model_registered(
    store: &MicroModelStore,
    model_id: &MicroModelId,
    kind: MicroModelKind,
    name: &str,
    actor_id: &ActorId,
    now: Timestamp,
) -> (r: Vec<EventKind>)
    requires
        store.inv(),
    ensures
        if store@.models.contains_key(model_id@) {
            r@.len() == 0
        } else {
            &&& r@.len() == 2
            &&& r@[0] matches EventKind::MicroModelRegistered { model } && model@ == builtin(
                model_id@,
                kind@,
                name@,
                actor_id@,
                now,
            )
            &&& r@[1] matches EventKind::MicroModelStatusChanged { model_id: id, status, reason } && id@ == model_id@
                && status == MicroModelStatus::Active && opt_chars(reason) == Some(
                "built-in micro-model: active on register"@,
            )
        },
{
    let mut r: Vec<EventKind> = Vec::new();
    if store.model(model_id).is_some() {
        return r;
    }
    let model = MicroModelDefinition {
        id: model_id.clone(),
        kind,
        name: name.to_owned(),
        version: 1,
        status: MicroModelStatus::Registered,
        input_schema: "[]".to_owned(),
        output_schema: "[]".to_owned(),
        created_by: actor_id.clone(),
        created_at: now,
    };
    r.push(EventKind::MicroModelRegistered { model });
    r.push(
        EventKind::MicroModelStatusChanged {
            model_id: model_id.clone(),
            status: MicroModelStatus::Active,
            reason: Some("built-in micro-model: active on register".to_owned()),
        },
    );
    r
}

/// The evidence that a prediction is.
pub open spec fn reflex_evidence(
    prediction: MicroModelPredictionModel,
    event: Seq<char>,
    parts: MicroModelReflexParts,
    id: Seq<char>,
) -> EvidenceModel {
    EvidenceModel {
        id,
        tenant_id: None,
        source: EvidenceSourceModel::System { name: prediction.model_id },
        payload: EvidencePayloadModel { kind: "micro_model_prediction"@, data: parts.evidence_payload_data@ },
        reliability: prediction.confidence,
        observed_at: prediction.created_at,
        recorded_at: prediction.created_at,
        caused_by: Some(event),
    }
}

/// The claim that rests on a prediction. It names the prediction as its cause.
pub open spec fn reflex_claim(
    prediction: MicroModelPredictionModel,
    event: Seq<char>,
    parts: MicroModelReflexParts,
    actor: Seq<char>,
    evidence: Seq<char>,
    id: Seq<char>,
) -> ClaimModel {
    ClaimModel {
        id,
        tenant_id: None,
        kind: ClaimKindModel::AnomalyFinding,
        subject: parts.claim_subject@,
        predicate: parts.claim_predicate@,
        object: parts.claim_object@,
        confidence: parts.confidence,
        status: ClaimStatus::Proposed,
        evidence_for: seq![evidence],
        evidence_against: Seq::empty(),
        valid_from: prediction.created_at,
        valid_until: None,
        created_by: actor,
        created_at: prediction.created_at,
        updated_at: prediction.created_at,
        caused_by: Some(event),
    }
}

fn only(id: &Id) -> (r: Vec<Id>)
    ensures
        texts(r@) == seq![id@],
{
    let mut r: Vec<Id> = Vec::new();
    r.push(id.clone());
    assert(texts(r@) =~= seq![id@]);
    r
}

fn no_ids() -> (r: Vec<Id>)
    ensures
        texts(r@) == Seq::<Seq<char>>::empty(),
{
    let r: Vec<Id> = Vec::new();
    assert(texts(r@) =~= Seq::<Seq<char>>::empty());
    r
}

/// The evidence and the claim to propose for a prediction; none where the model asks for
/// nothing.
pub fn propose_claim_from_reflex(
    prediction: &MicroModelPrediction,
    prediction_event_id: &EventId,
    parts: &MicroModelReflexParts,
    actor: &ActorId,
    evidence_id: &EvidenceId,
    claim_id: &ClaimId,
) -> (r: Option<ReflexClaim>)
    ensures
        r is Some <==> parts.actionable,
        r is Some ==> r->0.evidence@ == reflex_evidence(prediction@, prediction_event_id@, *parts, evidence_id@)
            && r->0.claim@ == reflex_claim(
            prediction@,
            prediction_event_id@,
            *parts,
            actor@,
            evidence_id@,
            claim_id@,
        ),
{
    if !parts.actionable {
        return None;
    }
    let evidence = Evidence {
        id: evidence_id.clone(),
        tenant_id: None,
        source: EvidenceSource::System { name: prediction.model_id.as_str().to_owned() },
        payload: EvidencePayload {
            kind: "micro_model_prediction".to_owned(),
            data: parts.evidence_payload_data.clone(),
        },
        reliability: prediction.confidence,
        observed_at: prediction.created_at,
        recorded_at: prediction.created_at,
        caused_by: Some(prediction_event_id.clone()),
    };
    let claim = Claim {
        id: claim_id.clone(),
        tenant_id: None,
        kind: ClaimKind::AnomalyFinding,
        subject: parts.claim_subject.clone(),
        predicate: parts.claim_predicate.clone(),
        object: parts.claim_object.clone(),
        confidence: parts.confidence,
        status: ClaimStatus::Proposed,
        evidence_for: only(evidence_id),
        evidence_against: no_ids(),
        valid_from: prediction.created_at,
        valid_until: None,
        created_by: actor.clone(),
        created_at: prediction.created_at,
        updated_at: prediction.created_at,
        caused_by: Some(prediction_event_id.clone()),
    };
    Some(ReflexClaim { evidence, claim })
}

/// Whether a claim, as it now stands, calls for the action: it says what the model said, and
/// it is verified or nearly certain.
pub open spec fn passes_gate(claim: Option<ClaimModel>, predicate: Seq<char>) -> bool {
    match claim {
        Some(c) => c.predicate == predicate && (c.status == ClaimStatus::Verified || (Number {
            bits: 0x3fec_cccc_cccc_cccd,
        }).below(c.confidence) || (Number { bits: 0x3fec_cccc_cccc_cccd }).equal(c.confidence)),
        None => false,
    }
}

/// The notification to propose for a prediction.
pub open spec fn reflex_action(
    prediction: MicroModelPredictionModel,
    bridge: ReflexBridgeIds,
    parts: MicroModelReflexParts,
    actor: Seq<char>,
    id: Seq<char>,
) -> ActionModel {
    ActionModel {
        id,
        tenant_id: None,
        kind: ActionKindModel::Notify,
        status: ActionStatus::Proposed,
        targets: seq![parts.action_target@],
        related_claims: seq![bridge.claim_id@],
        supporting_evidence: seq![bridge.evidence_id@],
        proposed_by: actor,
        approved_by: None,
        rejected_by: None,
        policy_id: None,
        payload: parts.action_payload@,
        created_at: prediction.created_at,
        updated_at: prediction.created_at,
        approved_at: None,
        rejected_at: None,
        executed_at: None,
        caused_by: Some(bridge.claim_event_id@),
    }
}

/// What an optional claim stands for.
pub open spec fn opt_claim(claim: Option<&Claim>) -> Option<ClaimModel> {
    match claim {
        Some(c) => Some(c@),
        None => None,
    }
}

/// The action to propose for a prediction, by the claim as it now stands; none where the
/// claim does not call for it.
pub fn propose_action_from_reflex(
    claim: Option<&Claim>,
    prediction: &MicroModelPrediction,
    bridge: &ReflexBridgeIds,
    parts: &MicroModelReflexParts,
    actor: &ActorId,
    action_id: &ActionId,
) -> (r: Option<Action>)
    ensures
        r is Some <==> passes_gate(opt_claim(claim), parts.claim_predicate@),
        r is Some ==> r->0@ == reflex_action(prediction@, *bridge, *parts, actor@, action_id@),
{
    let passes = match claim {
        Some(c) => str_same(c.predicate.as_str(), parts.claim_predicate.as_str()) && (c.status == ClaimStatus::Verified
            || Number::from_bits(0x3fec_cccc_cccc_cccd).le(c.confidence)),
        None => false,
    };
    if !passes {
        return None;
    }
    let mut targets: Vec<ActionTarget> = Vec::new();
    targets.push(parts.action_target.clone());
    assert(action_target_models(targets@) =~= seq![parts.action_target@]);
    Some(
        Action {
            id: action_id.clone(),
            tenant_id: None,
            kind: ActionKind::Notify,
            status: ActionStatus::Proposed,
            targets,
            related_claims: only(&bridge.claim_id),
            supporting_evidence: only(&bridge.evidence_id),
            proposed_by: actor.clone(),
            approved_by: None,
            rejected_by: None,
            policy_id: None,
            payload: parts.action_payload.clone(),
            created_at: prediction.created_at,
            updated_at: prediction.created_at,
            approved_at: None,
            rejected_at: None,
            executed_at: None,
            caused_by: Some(bridge.claim_event_id.clone()),
        },
    )
}

/// A claim of the model that is neither verified nor nearly certain leads to no action.
pub proof fn law_doubtful_claims_lead_to_nothing(claim: ClaimModel, predicate: Seq<char>)
    requires
        claim.status != ClaimStatus::Verified,
        claim.confidence.below(Number { bits: 0x3fec_cccc_cccc_cccd }),
    ensures
        !passes_gate(Some(claim), predicate),
{
}

} // verus!
