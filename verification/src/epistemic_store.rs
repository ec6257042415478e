//! The store of evidence and claims, derived from events.

use crate::epistemic::{Claim, ClaimKind, ClaimKindModel, ClaimModel, ClaimStatus, ClaimSubject, ClaimSubjectModel, Evidence, EvidenceModel};
use crate::error::{query_error, same_outcome, ErrorModel, HydraError};
use crate::event::{event_models, Event, EventKind, EventModel};
use crate::ids::{holds_id, texts, ClaimId, EdgeId, EvidenceId, Id, NodeId};
use crate::index::{insert_under_all, key_views, remove_from_index, remove_under_all, Index, Key};
use crate::table::{all_records, filed, lists, map_views, views, Table};
use crate::time::Timestamp;
use vstd::prelude::*;
use vstd::std_specs::convert::FromSpecImpl;

verus! {

/// A key for finding claims by their subject.
#[derive(Debug, PartialEq)]
pub enum ClaimSubjectKey {
    Node(NodeId),
    Edge(EdgeId),
    ExternalRef(String),
    Dataset(String),
    Metric(String),
    System(String),
}

impl View for ClaimSubjectKey {
    type V = ClaimSubjectModel;

    open spec fn view(&self) -> ClaimSubjectModel {
        match *self {
            ClaimSubjectKey::Node(x) => ClaimSubjectModel::Node(x@),
            ClaimSubjectKey::Edge(x) => ClaimSubjectModel::Edge(x@),
            ClaimSubjectKey::ExternalRef(x) => ClaimSubjectModel::ExternalRef(x@),
            ClaimSubjectKey::Dataset(x) => ClaimSubjectModel::Dataset(x@),
            ClaimSubjectKey::Metric(x) => ClaimSubjectModel::Metric(x@),
            ClaimSubjectKey::System(x) => ClaimSubjectModel::System(x@),
        }
    }
}

impl Clone for ClaimSubjectKey {
    fn clone(&self) -> (r: Self)
        ensures
            r@ == self@,
    {
        match self {
            ClaimSubjectKey::Node(x) => ClaimSubjectKey::Node(x.clone()),
            ClaimSubjectKey::Edge(x) => ClaimSubjectKey::Edge(x.clone()),
            ClaimSubjectKey::ExternalRef(x) => ClaimSubjectKey::ExternalRef(x.clone()),
            ClaimSubjectKey::Dataset(x) => ClaimSubjectKey::Dataset(x.clone()),
            ClaimSubjectKey::Metric(x) => ClaimSubjectKey::Metric(x.clone()),
            ClaimSubjectKey::System(x) => ClaimSubjectKey::System(x.clone()),
        }
    }
}

impl Key for ClaimSubjectKey {
    fn same(&self, other: &Self) -> (r: bool) {
        match (self, other) {
            (ClaimSubjectKey::Node(x), ClaimSubjectKey::Node(y)) => x.text == y.text,
            (ClaimSubjectKey::Edge(x), ClaimSubjectKey::Edge(y)) => x.text == y.text,
            (ClaimSubjectKey::ExternalRef(x), ClaimSubjectKey::ExternalRef(y)) => *x == *y,
            (ClaimSubjectKey::Dataset(x), ClaimSubjectKey::Dataset(y)) => *x == *y,
            (ClaimSubjectKey::Metric(x), ClaimSubjectKey::Metric(y)) => *x == *y,
            (ClaimSubjectKey::System(x), ClaimSubjectKey::System(y)) => *x == *y,
            _ => false,
        }
    }

    fn copy(&self) -> (r: Self) {
        self.clone()
    }
}

impl From<&ClaimSubject> for ClaimSubjectKey {
    fn from(value: &ClaimSubject) -> (r: Self) {
        match value {
            ClaimSubject::Node(x) => ClaimSubjectKey::Node(x.clone()),
            ClaimSubject::Edge(x) => ClaimSubjectKey::Edge(x.clone()),
            ClaimSubject::ExternalRef(x) => ClaimSubjectKey::ExternalRef(x.clone()),
            ClaimSubject::Dataset(x) => ClaimSubjectKey::Dataset(x.clone()),
            ClaimSubject::Metric(x) => ClaimSubjectKey::Metric(x.clone()),
            ClaimSubject::System(x) => ClaimSubjectKey::System(x.clone()),
        }
    }
}

impl FromSpecImpl<&ClaimSubject> for ClaimSubjectKey {
    open spec fn obeys_from_spec() -> bool {
        true
    }

    open spec fn from_spec(value: &ClaimSubject) -> Self {
        match *value {
            ClaimSubject::Node(x) => ClaimSubjectKey::Node(x),
            ClaimSubject::Edge(x) => ClaimSubjectKey::Edge(x),
            ClaimSubject::ExternalRef(x) => ClaimSubjectKey::ExternalRef(x),
            ClaimSubject::Dataset(x) => ClaimSubjectKey::Dataset(x),
            ClaimSubject::Metric(x) => ClaimSubjectKey::Metric(x),
            ClaimSubject::System(x) => ClaimSubjectKey::System(x),
        }
    }
}

/// What the store stands for: evidence and claims by identifier.
pub struct EpistemicModel {
    pub evidence: Map<Seq<char>, EvidenceModel>,
    pub claims: Map<Seq<char>, ClaimModel>,
}

/// What is believed, on what evidence, with indexes for queries.
pub struct EpistemicStore {
    pub evidence: Table<Evidence>,
    pub claims: Table<Claim>,
    pub claims_by_subject: Index<ClaimSubjectKey>,
    pub claims_by_status: Index<ClaimStatus>,
    pub claims_by_kind: Index<ClaimKind>,
    pub claims_by_evidence: Index<EvidenceId>,
}

impl View for EpistemicStore {
    type V = EpistemicModel;

    open spec fn view(&self) -> EpistemicModel {
        EpistemicModel { evidence: map_views(self.evidence@), claims: map_views(self.claims@) }
    }
}

impl Default for EpistemicStore {
    fn default() -> (r: Self)
        ensures
            r.inv(),
            r@ == EpistemicModel::empty(),
    {
        EpistemicStore::new()
    }
}

impl EpistemicModel {
    /// Nothing recorded.
    pub open spec fn empty() -> EpistemicModel {
        EpistemicModel { evidence: Map::empty(), claims: Map::empty() }
    }

    /// The state with a claim put in place of the one with its identifier.
    pub open spec fn with_claim(self, claim: ClaimModel) -> EpistemicModel {
        EpistemicModel { claims: self.claims.insert(claim.id, claim), ..self }
    }

    /// The state with a new status for a claim, or why there is none.
    pub open spec fn with_status(self, claim_id: Seq<char>, status: ClaimStatus, updated_at: Timestamp) -> Result<
        EpistemicModel,
        ErrorModel,
    > {
        if !self.claims.contains_key(claim_id) {
            Err(ErrorModel::QueryError("unknown claim: "@ + claim_id))
        } else {
            Ok(self.with_claim(ClaimModel { status, updated_at, ..self.claims[claim_id] }))
        }
    }

    /// The state with evidence for a claim: it is listed once, and a claim that was
    /// only proposed is now supported.
    pub open spec fn with_support(self, claim_id: Seq<char>, evidence_id: Seq<char>) -> Result<
        EpistemicModel,
        ErrorModel,
    > {
        if !self.evidence.contains_key(evidence_id) {
            Err(ErrorModel::QueryError("unknown evidence: "@ + evidence_id))
        } else if !self.claims.contains_key(claim_id) {
            Err(ErrorModel::QueryError("unknown claim: "@ + claim_id))
        } else {
            let claim = self.claims[claim_id];
            Ok(
                self.with_claim(
                    ClaimModel {
                        evidence_for: listed_once(claim.evidence_for, evidence_id),
                        status: if claim.status == ClaimStatus::Proposed {
                            ClaimStatus::Supported
                        } else {
                            claim.status
                        },
                        ..claim
                    },
                ),
            )
        }
    }

    /// The state with evidence against a claim: it is listed once, and the claim is
    /// disputed.
    pub open spec fn with_dispute(self, claim_id: Seq<char>, evidence_id: Seq<char>) -> Result<
        EpistemicModel,
        ErrorModel,
    > {
        if !self.evidence.contains_key(evidence_id) {
            Err(ErrorModel::QueryError("unknown evidence: "@ + evidence_id))
        } else if !self.claims.contains_key(claim_id) {
            Err(ErrorModel::QueryError("unknown claim: "@ + claim_id))
        } else {
            let claim = self.claims[claim_id];
            Ok(
                self.with_claim(
                    ClaimModel {
                        evidence_against: listed_once(claim.evidence_against, evidence_id),
                        status: ClaimStatus::Disputed,
                        ..claim
                    },
                ),
            )
        }
    }

    /// The state after an event, or why it is refused.
    pub open spec fn after(self, event: EventModel) -> Result<EpistemicModel, ErrorModel> {
        match event.kind {
            EventKind::EvidenceAdded { evidence } => Ok(
                EpistemicModel { evidence: self.evidence.insert(evidence@.id, evidence@), ..self },
            ),
            EventKind::ClaimProposed { claim } => Ok(self.with_claim(claim@)),
            EventKind::ClaimSupported { claim_id, evidence_id } => self.with_support(claim_id@, evidence_id@),
            EventKind::ClaimDisputed { claim_id, evidence_id, .. } => self.with_dispute(claim_id@, evidence_id@),
            EventKind::ClaimVerified { claim_id, .. } => self.with_status(
                claim_id@,
                ClaimStatus::Verified,
                event.timestamp,
            ),
            EventKind::ClaimRetracted { claim_id, .. } => self.with_status(
                claim_id@,
                ClaimStatus::Retracted,
                event.timestamp,
            ),
            EventKind::ClaimStaled { claim_id, .. } => self.with_status(claim_id@, ClaimStatus::Stale, event.timestamp),
            EventKind::TopologyCommittedFromClaim { claim_id, .. } => self.with_status(
                claim_id@,
                ClaimStatus::Operational,
                event.timestamp,
            ),
            _ => Ok(self),
        }
    }

    /// The state after a list of events, up to the first that is refused.
    pub open spec fn after_all(self, events: Seq<EventModel>) -> (EpistemicModel, Result<(), ErrorModel>)
        decreases events.len(),
    {
        if events.len() == 0 {
            (self, Ok(()))
        } else {
            match self.after(events[0]) {
                Ok(next) => next.after_all(events.skip(1)),
                Err(e) => (self, Err(e)),
            }
        }
    }
}

/// The list with the text at its end, unless it holds the text.
pub open spec fn listed_once(list: Seq<Seq<char>>, t: Seq<char>) -> Seq<Seq<char>> {
    if list.contains(t) {
        list
    } else {
        list.push(t)
    }
}

fn list_once(ids: &mut Vec<Id>, id: &Id)
    ensures
        texts(final(ids)@) == listed_once(texts(old(ids)@), id@),
{
    let ghost before = texts(ids@);
    if !holds_id(ids, id) {
        ids.push(id.clone());
        assert(texts(ids@) =~= before.push(id@));
    }
}

impl EpistemicStore {
    /// The tables are well formed, every record stands under its own identifier, and
    /// the indexes file exactly the records that have each key.
    pub open spec fn inv(&self) -> bool {
        &&& self.evidence.wf()
        &&& self.claims.wf()
        &&& self.claims_by_subject.wf()
        &&& self.claims_by_status.wf()
        &&& self.claims_by_kind.wf()
        &&& self.claims_by_evidence.wf()
        &&& forall|t: Seq<char>| #[trigger] self@.evidence.contains_key(t) ==> self@.evidence[t].id == t
        &&& forall|t: Seq<char>| #[trigger] self@.claims.contains_key(t) ==> self@.claims[t].id == t
        &&& forall|k: ClaimSubjectModel, t: Seq<char>| #[trigger]
            self.claims_by_subject.has(k, t) <==> self@.claims.contains_key(t) && self@.claims[t].subject == k
        &&& forall|k: ClaimStatus, t: Seq<char>| #[trigger]
            self.claims_by_status.has(k, t) <==> self@.claims.contains_key(t) && self@.claims[t].status == k
        &&& forall|k: ClaimKindModel, t: Seq<char>| #[trigger]
            self.claims_by_kind.has(k, t) <==> self@.claims.contains_key(t) && self@.claims[t].kind == k
        &&& forall|k: Seq<char>, t: Seq<char>| #[trigger]
            self.claims_by_evidence.has(k, t) <==> self@.claims.contains_key(t) && (self@.claims[t].evidence_for.contains(k) || self@.claims[t].evidence_against.contains(k))
    }

    /// A store without records.
    pub fn new() -> (r: Self)
        ensures
            r.inv(),
            r@ == EpistemicModel::empty(),
    {
        let r = EpistemicStore {
            evidence: Table::new(),
            claims: Table::new(),
            claims_by_subject: Index::new(),
            claims_by_status: Index::new(),
            claims_by_kind: Index::new(),
            claims_by_evidence: Index::new(),
        };
        assert(r@.evidence =~= Map::<Seq<char>, EvidenceModel>::empty());
        assert(r@.claims =~= Map::<Seq<char>, ClaimModel>::empty());
        r
    }

    /// The number of pieces of evidence.
    pub fn evidence_count(&self) -> (r: usize)
        requires
            self.inv(),
        ensures
            r == self@.evidence.len(),
    {
        assert(self@.evidence.dom() =~= self.evidence@.dom());
        self.evidence.len()
    }

    /// The one of the pieces of evidence with the identifier.
    pub fn evidence(&self, id: &EvidenceId) -> (r: Option<&Evidence>)
        requires
            self.inv(),
        ensures
            match r {
                Some(v) => self@.evidence.contains_key(id@) && v@ == self@.evidence[id@],
                None => !self@.evidence.contains_key(id@),
            },
    {
        self.evidence.get(id)
    }

    /// All pieces of evidence, each once, in the order in which they were first recorded.
    pub fn all_evidence(&self) -> (r: Vec<&Evidence>)
        requires
            self.inv(),
        ensures
            r@.len() == self.evidence.order().len(),
            self.evidence.order().no_duplicates(),
            forall|t: Seq<char>| #[trigger] self.evidence.order().contains(t) <==> self@.evidence.contains_key(t),
            forall|i: int| 0 <= i < r@.len() ==> #[trigger] views(r@)[i] == self@.evidence[self.evidence.order()[i]],
    {
        all_records(&self.evidence)
    }

    /// The number of claims.
    pub fn claim_count(&self) -> (r: usize)
        requires
            self.inv(),
        ensures
            r == self@.claims.len(),
    {
        assert(self@.claims.dom() =~= self.claims@.dom());
        self.claims.len()
    }

    /// The one of the claims with the identifier.
    pub fn claim(&self, id: &ClaimId) -> (r: Option<&Claim>)
        requires
            self.inv(),
        ensures
            match r {
                Some(v) => self@.claims.contains_key(id@) && v@ == self@.claims[id@],
                None => !self@.claims.contains_key(id@),
            },
    {
        self.claims.get(id)
    }

    /// All claims, each once, in the order in which they were first recorded.
    pub fn all_claims(&self) -> (r: Vec<&Claim>)
        requires
            self.inv(),
        ensures
            r@.len() == self.claims.order().len(),
            self.claims.order().no_duplicates(),
            forall|t: Seq<char>| #[trigger] self.claims.order().contains(t) <==> self@.claims.contains_key(t),
            forall|i: int| 0 <= i < r@.len() ==> #[trigger] views(r@)[i] == self@.claims[self.claims.order()[i]],
    {
        all_records(&self.claims)
    }

    /// The claims about a subject.
    pub fn claims_for_subject(&self, subject: &ClaimSubject) -> (r: Vec<&Claim>)
        requires
            self.inv(),
        ensures
            lists(
                views(r@),
                self@.claims,
                Set::new(|t: Seq<char>| self@.claims.contains_key(t) && self@.claims[t].subject == subject@),
            ),
    {
        let key = ClaimSubjectKey::from(subject);
        let r = filed(&self.claims, &self.claims_by_subject, &key);
        assert(Set::new(|t: Seq<char>| self.claims_by_subject.has(subject@, t)) =~= Set::new(
            |t: Seq<char>| self@.claims.contains_key(t) && self@.claims[t].subject == subject@,
        ));
        r
    }

    /// The claims with a status.
    pub fn claims_with_status(&self, status: ClaimStatus) -> (r: Vec<&Claim>)
        requires
            self.inv(),
        ensures
            lists(
                views(r@),
                self@.claims,
                Set::new(|t: Seq<char>| self@.claims.contains_key(t) && self@.claims[t].status == status),
            ),
    {
        let r = filed(&self.claims, &self.claims_by_status, &status);
        assert(Set::new(|t: Seq<char>| self.claims_by_status.has(status, t)) =~= Set::new(
            |t: Seq<char>| self@.claims.contains_key(t) && self@.claims[t].status == status,
        ));
        r
    }

    /// The claims of a kind.
    pub fn claims_with_kind(&self, kind: ClaimKind) -> (r: Vec<&Claim>)
        requires
            self.inv(),
        ensures
            lists(
                views(r@),
                self@.claims,
                Set::new(|t: Seq<char>| self@.claims.contains_key(t) && self@.claims[t].kind == kind@),
            ),
    {
        let r = filed(&self.claims, &self.claims_by_kind, &kind);
        assert(Set::new(|t: Seq<char>| self.claims_by_kind.has(kind@, t)) =~= Set::new(
            |t: Seq<char>| self@.claims.contains_key(t) && self@.claims[t].kind == kind@,
        ));
        r
    }

    /// The claims that evidence speaks for or against.
    pub fn claims_using_evidence(&self, evidence_id: &EvidenceId) -> (r: Vec<&Claim>)
        requires
            self.inv(),
        ensures
            lists(
                views(r@),
                self@.claims,
                Set::new(|t: Seq<char>| self@.claims.contains_key(t) && (self@.claims[t].evidence_for.contains(evidence_id@) || self@.claims[t].evidence_against.contains(evidence_id@))),
            ),
    {
        let r = filed(&self.claims, &self.claims_by_evidence, evidence_id);
        assert(Set::new(|t: Seq<char>| self.claims_by_evidence.has(evidence_id@, t)) =~= Set::new(
            |t: Seq<char>| self@.claims.contains_key(t) && (self@.claims[t].evidence_for.contains(evidence_id@) || self@.claims[t].evidence_against.contains(evidence_id@)),
        ));
        r
    }

    /// The claims that are verified.
    pub fn verified_claims(&self) -> (r: Vec<&Claim>)
        requires
            self.inv(),
        ensures
            lists(
                views(r@),
                self@.claims,
                Set::new(|t: Seq<char>| self@.claims.contains_key(t) && self@.claims[t].status == ClaimStatus::Verified),
            ),
    {
        self.claims_with_status(ClaimStatus::Verified)
    }

    /// The claims that are operational.
    pub fn operational_claims(&self) -> (r: Vec<&Claim>)
        requires
            self.inv(),
        ensures
            lists(
                views(r@),
                self@.claims,
                Set::new(|t: Seq<char>| self@.claims.contains_key(t) && self@.claims[t].status == ClaimStatus::Operational),
            ),
    {
        self.claims_with_status(ClaimStatus::Operational)
    }

    /// The claims that are disputed.
    pub fn disputed_claims(&self) -> (r: Vec<&Claim>)
        requires
            self.inv(),
        ensures
            lists(
                views(r@),
                self@.claims,
                Set::new(|t: Seq<char>| self@.claims.contains_key(t) && self@.claims[t].status == ClaimStatus::Disputed),
            ),
    {
        self.claims_with_status(ClaimStatus::Disputed)
    }

    /// The claims that are stale.
    pub fn stale_claims(&self) -> (r: Vec<&Claim>)
        requires
            self.inv(),
        ensures
            lists(
                views(r@),
                self@.claims,
                Set::new(|t: Seq<char>| self@.claims.contains_key(t) && self@.claims[t].status == ClaimStatus::Stale),
            ),
    {
        self.claims_with_status(ClaimStatus::Stale)
    }

    /// The claims that are retracted.
    pub fn retracted_claims(&self) -> (r: Vec<&Claim>)
        requires
            self.inv(),
        ensures
            lists(
                views(r@),
                self@.claims,
                Set::new(|t: Seq<char>| self@.claims.contains_key(t) && self@.claims[t].status == ClaimStatus::Retracted),
            ),
    {
        self.claims_with_status(ClaimStatus::Retracted)
    }

    fn insert_evidence(&mut self, evidence: Evidence)
        requires
            old(self).inv(),
        ensures
            final(self).inv(),
            final(self)@ == (EpistemicModel { evidence: old(self)@.evidence.insert(evidence@.id, evidence@), ..old(self)@ }),
    {
        let ghost before = self@;
        let ghost stored = evidence@;
        let id = evidence.id.clone();
        self.evidence.insert(id, evidence);
        assert(self@.evidence =~= before.evidence.insert(stored.id, stored));
    }

    fn insert_claim(&mut self, claim: Claim)
        requires
            old(self).inv(),
        ensures
            final(self).inv(),
            final(self)@ == (EpistemicModel { claims: old(self)@.claims.insert(claim@.id, claim@), ..old(self)@ }),
    {
        let ghost before = self@;
        let ghost stored = claim@;
        let id = claim.id.clone();
        if let Some(existing) = self.claims.get(&id) {
            remove_from_index(&mut self.claims_by_subject, &ClaimSubjectKey::from(&existing.subject), &id);
            remove_from_index(&mut self.claims_by_status, &existing.status, &id);
            remove_from_index(&mut self.claims_by_kind, &existing.kind, &id);
            remove_under_all(&mut self.claims_by_evidence, &existing.evidence_for, &id);
            assert(key_views(existing.evidence_for@) =~= texts(existing.evidence_for@));
            remove_under_all(&mut self.claims_by_evidence, &existing.evidence_against, &id);
            assert(key_views(existing.evidence_against@) =~= texts(existing.evidence_against@));
        }
        self.claims_by_subject.insert(ClaimSubjectKey::from(&claim.subject), id.clone());
        self.claims_by_status.insert(claim.status, id.clone());
        self.claims_by_kind.insert(claim.kind.clone(), id.clone());
        insert_under_all(&mut self.claims_by_evidence, &claim.evidence_for, &id);
        assert(key_views(claim.evidence_for@) =~= texts(claim.evidence_for@));
        insert_under_all(&mut self.claims_by_evidence, &claim.evidence_against, &id);
        assert(key_views(claim.evidence_against@) =~= texts(claim.evidence_against@));
        self.claims.insert(id, claim);
        assert(self@.claims =~= before.claims.insert(stored.id, stored));
    }

    fn ensure_evidence_exists(&self, evidence_id: &EvidenceId) -> (r: Result<(), HydraError>)
        requires
            self.inv(),
        ensures
            match r {
                Ok(_) => self@.evidence.contains_key(evidence_id@),
                Err(e) => !self@.evidence.contains_key(evidence_id@) && e@ == ErrorModel::QueryError(
                    "unknown evidence: "@ + evidence_id@,
                ),
            },
    {
        if self.evidence.contains(evidence_id) {
            Ok(())
        } else {
            Err(query_error("unknown evidence: ", evidence_id.as_str()))
        }
    }

    fn existing_claim(&self, claim_id: &ClaimId) -> (r: Result<Claim, HydraError>)
        requires
            self.inv(),
        ensures
            match r {
                Ok(claim) => self@.claims.contains_key(claim_id@) && claim@ == self@.claims[claim_id@],
                Err(e) => !self@.claims.contains_key(claim_id@) && e@ == ErrorModel::QueryError(
                    "unknown claim: "@ + claim_id@,
                ),
            },
    {
        match self.claims.get(claim_id) {
            Some(claim) => Ok(claim.clone()),
            None => Err(query_error("unknown claim: ", claim_id.as_str())),
        }
    }

    fn add_supporting_evidence(&mut self, claim_id: &ClaimId, evidence_id: &EvidenceId) -> (r: Result<(), HydraError>)
        requires
            old(self).inv(),
        ensures
            final(self).inv(),
            match old(self)@.with_support(claim_id@, evidence_id@) {
                Ok(next) => r is Ok && final(self)@ == next,
                Err(e) => r is Err && r->Err_0@ == e && final(self)@ == old(self)@,
            },
    {
        match self.ensure_evidence_exists(evidence_id) {
            Ok(_) => {},
            Err(e) => {
                return Err(e);
            },
        }
        match self.existing_claim(claim_id) {
            Ok(claim) => {
                let mut claim = claim;
                list_once(&mut claim.evidence_for, evidence_id);
                if claim.status == ClaimStatus::Proposed {
                    claim.status = ClaimStatus::Supported;
                }
                self.insert_claim(claim);
                Ok(())
            },
            Err(e) => Err(e),
        }
    }

    fn add_disputing_evidence(&mut self, claim_id: &ClaimId, evidence_id: &EvidenceId) -> (r: Result<(), HydraError>)
        requires
            old(self).inv(),
        ensures
            final(self).inv(),
            match old(self)@.with_dispute(claim_id@, evidence_id@) {
                Ok(next) => r is Ok && final(self)@ == next,
                Err(e) => r is Err && r->Err_0@ == e && final(self)@ == old(self)@,
            },
    {
        match self.ensure_evidence_exists(evidence_id) {
            Ok(_) => {},
            Err(e) => {
                return Err(e);
            },
        }
        match self.existing_claim(claim_id) {
            Ok(claim) => {
                let mut claim = claim;
                list_once(&mut claim.evidence_against, evidence_id);
                claim.status = ClaimStatus::Disputed;
                self.insert_claim(claim);
                Ok(())
            },
            Err(e) => Err(e),
        }
    }

    fn update_claim_status(&mut self, claim_id: &ClaimId, status: ClaimStatus, updated_at: Timestamp) -> (r: Result<
        (),
        HydraError,
    >)
        requires
            old(self).inv(),
        ensures
            final(self).inv(),
            match old(self)@.with_status(claim_id@, status, updated_at) {
                Ok(next) => r is Ok && final(self)@ == next,
                Err(e) => r is Err && r->Err_0@ == e && final(self)@ == old(self)@,
            },
    {
        match self.existing_claim(claim_id) {
            Ok(claim) => {
                let mut claim = claim;
                claim.status = status;
                claim.updated_at = updated_at;
                self.insert_claim(claim);
                Ok(())
            },
            Err(e) => Err(e),
        }
    }

    /// Applies an event. Events of other kinds are ignored; a refused event changes nothing.
    pub fn apply_event(&mut self, event: &Event) -> (r: Result<(), HydraError>)
        requires
            old(self).inv(),
        ensures
            final(self).inv(),
            match old(self)@.after(event@) {
                Ok(next) => r is Ok && final(self)@ == next,
                Err(e) => r is Err && r->Err_0@ == e && final(self)@ == old(self)@,
            },
    {
        match &event.kind {
            EventKind::EvidenceAdded { evidence } => {
                self.insert_evidence(evidence.clone());
                Ok(())
            },
            EventKind::ClaimProposed { claim } => {
                self.insert_claim(claim.clone());
                Ok(())
            },
            EventKind::ClaimSupported { claim_id, evidence_id } => self.add_supporting_evidence(claim_id, evidence_id),
            EventKind::ClaimDisputed { claim_id, evidence_id, .. } => self.add_disputing_evidence(
                claim_id,
                evidence_id,
            ),
            EventKind::ClaimVerified { claim_id, .. } => self.update_claim_status(
                claim_id,
                ClaimStatus::Verified,
                event.timestamp,
            ),
            EventKind::ClaimRetracted { claim_id, .. } => self.update_claim_status(
                claim_id,
                ClaimStatus::Retracted,
                event.timestamp,
            ),
            EventKind::ClaimStaled { claim_id, .. } => self.update_claim_status(
                claim_id,
                ClaimStatus::Stale,
                event.timestamp,
            ),
            EventKind::TopologyCommittedFromClaim { claim_id, .. } => self.update_claim_status(
                claim_id,
                ClaimStatus::Operational,
                event.timestamp,
            ),
            _ => Ok(()),
        }
    }

    /// Applies events in order, up to the first that is refused.
    pub fn apply_events(&mut self, events: &Vec<Event>) -> (r: Result<(), HydraError>)
        requires
            old(self).inv(),
        ensures
            final(self).inv(),
            final(self)@ == old(self)@.after_all(event_models(events@)).0,
            same_outcome(r, old(self)@.after_all(event_models(events@)).1),
    {
        let ghost before = self@;
        let mut i: usize = 0;
        let ghost models = event_models(events@);
        assert(models.skip(0) =~= models);
        while i < events.len()
            invariant
                i <= events@.len(),
                self.inv(),
                before == old(self)@,
                models == event_models(events@),
                self@.after_all(models.skip(i as int)) == before.after_all(models),
            decreases events@.len() - i,
        {
            proof {
                assert(models.skip(i as int)[0] == events@[i as int]@);
                assert(models.skip(i as int).skip(1) =~= models.skip(i + 1));
            }
            match self.apply_event(&events[i]) {
                Ok(_) => {},
                Err(e) => {
                    return Err(e);
                },
            }
            i += 1;
        }
        Ok(())
    }
}

/// Evidence and claims are never forgotten: after any event that is accepted every
/// identifier that was known is known, and a claim keeps its subject and its kind
/// unless it is proposed anew.
pub proof fn law_beliefs_are_kept(store: EpistemicModel, event: EventModel)
    requires
        store.after(event) is Ok,
        forall|t: Seq<char>| #[trigger] store.claims.contains_key(t) ==> store.claims[t].id == t,
    ensures
        forall|t: Seq<char>| #[trigger]
            store.evidence.contains_key(t) ==> store.after(event)->Ok_0.evidence.contains_key(t),
        forall|t: Seq<char>| #[trigger]
            store.claims.contains_key(t) ==> {
                let next = store.after(event)->Ok_0;
                &&& next.claims.contains_key(t)
                &&& !(event.kind is ClaimProposed) ==> {
                    &&& next.claims[t].subject == store.claims[t].subject
                    &&& next.claims[t].kind == store.claims[t].kind
                    &&& next.claims[t].predicate == store.claims[t].predicate
                }
            },
{
}

/// Supporting a claim twice with the same evidence is the same as supporting it once.
pub proof fn law_support_is_idempotent(store: EpistemicModel, claim_id: Seq<char>, evidence_id: Seq<char>)
    requires
        store.with_support(claim_id, evidence_id) is Ok,
        store.claims[claim_id].id == claim_id,
    ensures
        ({
            let once = store.with_support(claim_id, evidence_id)->Ok_0;
            once.with_support(claim_id, evidence_id) == Ok::<EpistemicModel, ErrorModel>(once)
        }),
{
    let once = store.with_support(claim_id, evidence_id)->Ok_0;
    let list = store.claims[claim_id].evidence_for;
    if !list.contains(evidence_id) {
        assert(list.push(evidence_id)[list.len() as int] == evidence_id);
    }
    assert(once.with_support(claim_id, evidence_id)->Ok_0.claims =~= once.claims);
}

} // verus!
