//! Evidence and claims.

use crate::ids::{clone_ids, clone_opt_id, opt_text, texts, ActorId, ClaimId, EdgeId, EventId, EvidenceId, NodeId, TenantId};
use crate::index::Key;
use crate::number::Number;
use crate::text::{clone_opt_string, opt_chars};
use crate::time::Timestamp;
use crate::value::{Properties, Value, ValueModel};
use vstd::prelude::*;

verus! {

/// Where a claim stands.
#[derive(Debug, Clone, Copy, PartialEq, Eq, Structural, Hash)]
pub enum ClaimStatus {
    Proposed,
    Supported,
    Disputed,
    Verified,
    Retracted,
    Stale,
    Operational,
}

impl View for ClaimStatus {
    type V = ClaimStatus;

    open spec fn view(&self) -> ClaimStatus {
        *self
    }
}

impl Key for ClaimStatus {
    fn same(&self, other: &Self) -> (r: bool) {
        *self == *other
    }

    fn copy(&self) -> (r: Self) {
        *self
    }
}

/// What sort of statement a claim makes.
#[derive(Debug, PartialEq)]
pub enum ClaimKind {
    AnomalyFinding,
    Other(String),
}

/// What a sort of claim stands for.
pub enum ClaimKindModel {
    AnomalyFinding,
    Other(Seq<char>),
}

impl View for ClaimKind {
    type V = ClaimKindModel;

    open spec fn view(&self) -> ClaimKindModel {
        match *self {
            ClaimKind::AnomalyFinding => ClaimKindModel::AnomalyFinding,
            ClaimKind::Other(x) => ClaimKindModel::Other(x@),
        }
    }
}

impl Clone for ClaimKind {
    fn clone(&self) -> (r: Self)
        ensures
            r@ == self@,
    {
        match self {
            ClaimKind::AnomalyFinding => ClaimKind::AnomalyFinding,
            ClaimKind::Other(x) => ClaimKind::Other(x.clone()),
        }
    }
}

impl Key for ClaimKind {
    fn same(&self, other: &Self) -> (r: bool) {
        match (self, other) {
            (ClaimKind::AnomalyFinding, ClaimKind::AnomalyFinding) => true,
            (ClaimKind::Other(x), ClaimKind::Other(y)) => *x == *y,
            _ => false,
        }
    }

    fn copy(&self) -> (r: Self) {
        self.clone()
    }
}

/// What a claim is about.
#[derive(Debug, PartialEq)]
pub enum ClaimSubject {
    Node(NodeId),
    Edge(EdgeId),
    ExternalRef(String),
    Dataset(String),
    Metric(String),
    System(String),
}

/// What the subject of a claim stands for.
pub enum ClaimSubjectModel {
    Node(Seq<char>),
    Edge(Seq<char>),
    ExternalRef(Seq<char>),
    Dataset(Seq<char>),
    Metric(Seq<char>),
    System(Seq<char>),
}

impl View for ClaimSubject {
    type V = ClaimSubjectModel;

    open spec fn view(&self) -> ClaimSubjectModel {
        match *self {
            ClaimSubject::Node(x) => ClaimSubjectModel::Node(x@),
            ClaimSubject::Edge(x) => ClaimSubjectModel::Edge(x@),
            ClaimSubject::ExternalRef(x) => ClaimSubjectModel::ExternalRef(x@),
            ClaimSubject::Dataset(x) => ClaimSubjectModel::Dataset(x@),
            ClaimSubject::Metric(x) => ClaimSubjectModel::Metric(x@),
            ClaimSubject::System(x) => ClaimSubjectModel::System(x@),
        }
    }
}

impl Clone for ClaimSubject {
    fn clone(&self) -> (r: Self)
        ensures
            r@ == self@,
    {
        match self {
            ClaimSubject::Node(x) => ClaimSubject::Node(x.clone()),
            ClaimSubject::Edge(x) => ClaimSubject::Edge(x.clone()),
            ClaimSubject::ExternalRef(x) => ClaimSubject::ExternalRef(x.clone()),
            ClaimSubject::Dataset(x) => ClaimSubject::Dataset(x.clone()),
            ClaimSubject::Metric(x) => ClaimSubject::Metric(x.clone()),
            ClaimSubject::System(x) => ClaimSubject::System(x.clone()),
        }
    }
}

/// What a claim states of its subject.
#[derive(Debug, PartialEq)]
pub enum ClaimObject {
    Value(Value),
}

/// What the object of a claim stands for.
pub enum ClaimObjectModel {
    Value(ValueModel),
}

impl View for ClaimObject {
    type V = ClaimObjectModel;

    open spec fn view(&self) -> ClaimObjectModel {
        match *self {
            ClaimObject::Value(x) => ClaimObjectModel::Value(x@),
        }
    }
}

impl Clone for ClaimObject {
    fn clone(&self) -> (r: Self)
        ensures
            r@ == self@,
    {
        match self {
            ClaimObject::Value(x) => ClaimObject::Value(x.clone()),
        }
    }
}

/// Where evidence comes from.
#[derive(Debug, PartialEq)]
pub enum EvidenceSource {
    Warehouse { system: String, database: Option<String>, schema: Option<String>, table: Option<String> },
    System { name: String },
}

/// What a source of evidence stands for.
pub enum EvidenceSourceModel {
    Warehouse { system: Seq<char>, database: Option<Seq<char>>, schema: Option<Seq<char>>, table: Option<Seq<char>> },
    System { name: Seq<char> },
}

impl View for EvidenceSource {
    type V = EvidenceSourceModel;

    open spec fn view(&self) -> EvidenceSourceModel {
        match *self {
            EvidenceSource::Warehouse { system, database, schema, table } => EvidenceSourceModel::Warehouse { system: system@, database: opt_chars(database), schema: opt_chars(schema), table: opt_chars(table) },
            EvidenceSource::System { name } => EvidenceSourceModel::System { name: name@ },
        }
    }
}

impl Clone for EvidenceSource {
    fn clone(&self) -> (r: Self)
        ensures
            r@ == self@,
    {
        match self {
            EvidenceSource::Warehouse { system, database, schema, table } => EvidenceSource::Warehouse { system: system.clone(), database: clone_opt_string(database), schema: clone_opt_string(schema), table: clone_opt_string(table) },
            EvidenceSource::System { name } => EvidenceSource::System { name: name.clone() },
        }
    }
}

/// The content of evidence.
#[derive(Debug, PartialEq)]
pub struct EvidencePayload {
    pub kind: String,
    pub data: Properties,
}

/// What the content of evidence stands for.
pub struct EvidencePayloadModel {
    pub kind: Seq<char>,
    pub data: Map<Seq<char>, ValueModel>,
}

impl View for EvidencePayload {
    type V = EvidencePayloadModel;

    open spec fn view(&self) -> EvidencePayloadModel {
        EvidencePayloadModel {
            kind: self.kind@,
            data: self.data@,
        }
    }
}

impl Clone for EvidencePayload {
    fn clone(&self) -> (r: Self)
        ensures
            r@ == self@,
    {
        EvidencePayload {
            kind: self.kind.clone(),
            data: self.data.clone(),
        }
    }
}

/// A piece of evidence.
#[derive(Debug, PartialEq)]
pub struct Evidence {
    pub id: EvidenceId,
    pub tenant_id: Option<TenantId>,
    pub source: EvidenceSource,
    pub payload: EvidencePayload,
    pub reliability: Number,
    pub observed_at: Timestamp,
    pub recorded_at: Timestamp,
    pub caused_by: Option<EventId>,
}

/// What a piece of evidence stands for.
pub struct EvidenceModel {
    pub id: Seq<char>,
    pub tenant_id: Option<Seq<char>>,
    pub source: EvidenceSourceModel,
    pub payload: EvidencePayloadModel,
    pub reliability: Number,
    pub observed_at: Timestamp,
    pub recorded_at: Timestamp,
    pub caused_by: Option<Seq<char>>,
}

impl View for Evidence {
    type V = EvidenceModel;

    open spec fn view(&self) -> EvidenceModel {
        EvidenceModel {
            id: self.id@,
            tenant_id: opt_text(self.tenant_id),
            source: self.source@,
            payload: self.payload@,
            reliability: self.reliability,
            observed_at: self.observed_at,
            recorded_at: self.recorded_at,
            caused_by: opt_text(self.caused_by),
        }
    }
}

impl Clone for Evidence {
    fn clone(&self) -> (r: Self)
        ensures
            r@ == self@,
    {
        Evidence {
            id: self.id.clone(),
            tenant_id: clone_opt_id(&self.tenant_id),
            source: self.source.clone(),
            payload: self.payload.clone(),
            reliability: self.reliability,
            observed_at: self.observed_at,
            recorded_at: self.recorded_at,
            caused_by: clone_opt_id(&self.caused_by),
        }
    }
}

/// A claim: a statement with the evidence for and against it.
#[derive(Debug, PartialEq)]
pub struct Claim {
    pub id: ClaimId,
    pub tenant_id: Option<TenantId>,
    pub kind: ClaimKind,
    pub subject: ClaimSubject,
    pub predicate: String,
    pub object: ClaimObject,
    pub confidence: Number,
    pub status: ClaimStatus,
    pub evidence_for: Vec<EvidenceId>,
    pub evidence_against: Vec<EvidenceId>,
    pub valid_from: Timestamp,
    pub valid_until: Option<Timestamp>,
    pub created_by: ActorId,
    pub created_at: Timestamp,
    pub updated_at: Timestamp,
    pub caused_by: Option<EventId>,
}

/// What a claim stands for.
pub struct ClaimModel {
    pub id: Seq<char>,
    pub tenant_id: Option<Seq<char>>,
    pub kind: ClaimKindModel,
    pub subject: ClaimSubjectModel,
    pub predicate: Seq<char>,
    pub object: ClaimObjectModel,
    pub confidence: Number,
    pub status: ClaimStatus,
    pub evidence_for: Seq<Seq<char>>,
    pub evidence_against: Seq<Seq<char>>,
    pub valid_from: Timestamp,
    pub valid_until: Option<Timestamp>,
    pub created_by: Seq<char>,
    pub created_at: Timestamp,
    pub updated_at: Timestamp,
    pub caused_by: Option<Seq<char>>,
}

impl View for Claim {
    type V = ClaimModel;

    open spec fn view(&self) -> ClaimModel {
        ClaimModel {
            id: self.id@,
            tenant_id: opt_text(self.tenant_id),
            kind: self.kind@,
            subject: self.subject@,
            predicate: self.predicate@,
            object: self.object@,
            confidence: self.confidence,
            status: self.status,
            evidence_for: texts(self.evidence_for@),
            evidence_against: texts(self.evidence_against@),
            valid_from: self.valid_from,
            valid_until: self.valid_until,
            created_by: self.created_by@,
            created_at: self.created_at,
            updated_at: self.updated_at,
            caused_by: opt_text(self.caused_by),
        }
    }
}

impl Clone for Claim {
    fn clone(&self) -> (r: Self)
        ensures
            r@ == self@,
    {
        Claim {
            id: self.id.clone(),
            tenant_id: clone_opt_id(&self.tenant_id),
            kind: self.kind.clone(),
            subject: self.subject.clone(),
            predicate: self.predicate.clone(),
            object: self.object.clone(),
            confidence: self.confidence,
            status: self.status,
            evidence_for: clone_ids(&self.evidence_for),
            evidence_against: clone_ids(&self.evidence_against),
            valid_from: self.valid_from,
            valid_until: self.valid_until,
            created_by: self.created_by.clone(),
            created_at: self.created_at,
            updated_at: self.updated_at,
            caused_by: clone_opt_id(&self.caused_by),
        }
    }
}

} // verus!
