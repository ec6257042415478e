//! Causal cells.

use crate::ids::{clone_opt_id, opt_text, ActorId, CausalCellId, EventId, TenantId};
use crate::time::Timestamp;
use crate::value::{Properties, ValueModel};
use vstd::prelude::*;

verus! {

/// What a causal cell gathers.
#[derive(Debug, PartialEq)]
pub enum CausalCellKind {
    Reflex,
    Incident,
    Health,
    Custom(String),
}

/// What a kind of causal cell stands for.
pub enum CausalCellKindModel {
    Reflex,
    Incident,
    Health,
    Custom(Seq<char>),
}

impl View for CausalCellKind {
    type V = CausalCellKindModel;

    open spec fn view(&self) -> CausalCellKindModel {
        match *self {
            CausalCellKind::Reflex => CausalCellKindModel::Reflex,
            CausalCellKind::Incident => CausalCellKindModel::Incident,
            CausalCellKind::Health => CausalCellKindModel::Health,
            CausalCellKind::Custom(x) => CausalCellKindModel::Custom(x@),
        }
    }
}

impl Clone for CausalCellKind {
    fn clone(&self) -> (r: Self)
        ensures
            r@ == self@,
    {
        match self {
            CausalCellKind::Reflex => CausalCellKind::Reflex,
            CausalCellKind::Incident => CausalCellKind::Incident,
            CausalCellKind::Health => CausalCellKind::Health,
            CausalCellKind::Custom(x) => CausalCellKind::Custom(x.clone()),
        }
    }
}

/// A cell that gathers what belongs to one cause.
#[derive(Debug, PartialEq)]
pub struct CausalCell {
    pub id: CausalCellId,
    pub tenant_id: Option<TenantId>,
    pub kind: CausalCellKind,
    pub subject: String,
    pub created_by: ActorId,
    pub created_at: Timestamp,
    pub metadata: Properties,
    pub caused_by: Option<EventId>,
}

/// What a causal cell stands for.
pub struct CausalCellModel {
    pub id: Seq<char>,
    pub tenant_id: Option<Seq<char>>,
    pub kind: CausalCellKindModel,
    pub subject: Seq<char>,
    pub created_by: Seq<char>,
    pub created_at: Timestamp,
    pub metadata: Map<Seq<char>, ValueModel>,
    pub caused_by: Option<Seq<char>>,
}

impl View for CausalCell {
    type V = CausalCellModel;

    open spec fn view(&self) -> CausalCellModel {
        CausalCellModel {
            id: self.id@,
            tenant_id: opt_text(self.tenant_id),
            kind: self.kind@,
            subject: self.subject@,
            created_by: self.created_by@,
            created_at: self.created_at,
            metadata: self.metadata@,
            caused_by: opt_text(self.caused_by),
        }
    }
}

impl Clone for CausalCell {
    fn clone(&self) -> (r: Self)
        ensures
            r@ == self@,
    {
        CausalCell {
            id: self.id.clone(),
            tenant_id: clone_opt_id(&self.tenant_id),
            kind: self.kind.clone(),
            subject: self.subject.clone(),
            created_by: self.created_by.clone(),
            created_at: self.created_at,
            metadata: self.metadata.clone(),
            caused_by: clone_opt_id(&self.caused_by),
        }
    }
}

/// The text that stands for a kind of causal cell: its name, or its label.
pub open spec fn causal_cell_kind_text(kind: CausalCellKindModel) -> Seq<char> {
    match kind {
        CausalCellKindModel::Reflex => "reflex"@,
        CausalCellKindModel::Incident => "incident"@,
        CausalCellKindModel::Health => "health"@,
        CausalCellKindModel::Custom(label) => label,
    }
}

impl CausalCellKind {
    /// The text that stands for the kind.
    pub fn discriminant(&self) -> (r: String)
        ensures
            r@ == causal_cell_kind_text(self@),
    {
        match self {
            CausalCellKind::Reflex => "reflex".to_owned(),
            CausalCellKind::Incident => "incident".to_owned(),
            CausalCellKind::Health => "health".to_owned(),
            CausalCellKind::Custom(label) => label.clone(),
        }
    }
}

} // verus!
