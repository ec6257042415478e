//! Entities, their aliases and the links between them.

use crate::ids::{clone_ids, clone_opt_id, opt_text, texts, ActorId, CausalCellId, ClaimId, EventId, EvidenceId, IdentityEntityId, IdentityLinkId, TenantId};
use crate::number::Number;
use crate::text::{clone_opt_string, opt_chars, str_same};
use crate::time::Timestamp;
use crate::value::{Properties, ValueModel};
use vstd::prelude::*;
use vstd::string::StringExecFns;

verus! {

/// What an entity is.
#[derive(Debug, PartialEq)]
pub enum IdentityEntityKind {
    Dataset,
    Service,
    Source,
    Custom(String),
}

/// What a kind of entity stands for.
pub enum IdentityEntityKindModel {
    Dataset,
    Service,
    Source,
    Custom(Seq<char>),
}

impl View for IdentityEntityKind {
    type V = IdentityEntityKindModel;

    open spec fn view(&self) -> IdentityEntityKindModel {
        match *self {
            IdentityEntityKind::Dataset => IdentityEntityKindModel::Dataset,
            IdentityEntityKind::Service => IdentityEntityKindModel::Service,
            IdentityEntityKind::Source => IdentityEntityKindModel::Source,
            IdentityEntityKind::Custom(x) => IdentityEntityKindModel::Custom(x@),
        }
    }
}

impl Clone for IdentityEntityKind {
    fn clone(&self) -> (r: Self)
        ensures
            r@ == self@,
    {
        match self {
            IdentityEntityKind::Dataset => IdentityEntityKind::Dataset,
            IdentityEntityKind::Service => IdentityEntityKind::Service,
            IdentityEntityKind::Source => IdentityEntityKind::Source,
            IdentityEntityKind::Custom(x) => IdentityEntityKind::Custom(x.clone()),
        }
    }
}

/// How two entities are related.
#[derive(Debug, PartialEq)]
pub enum IdentityLinkKind {
    DependsOn,
    OwnedBy,
    SameAs,
    Custom(String),
}

/// What a kind of link stands for.
pub enum IdentityLinkKindModel {
    DependsOn,
    OwnedBy,
    SameAs,
    Custom(Seq<char>),
}

impl View for IdentityLinkKind {
    type V = IdentityLinkKindModel;

    open spec fn view(&self) -> IdentityLinkKindModel {
        match *self {
            IdentityLinkKind::DependsOn => IdentityLinkKindModel::DependsOn,
            IdentityLinkKind::OwnedBy => IdentityLinkKindModel::OwnedBy,
            IdentityLinkKind::SameAs => IdentityLinkKindModel::SameAs,
            IdentityLinkKind::Custom(x) => IdentityLinkKindModel::Custom(x@),
        }
    }
}

impl Clone for IdentityLinkKind {
    fn clone(&self) -> (r: Self)
        ensures
            r@ == self@,
    {
        match self {
            IdentityLinkKind::DependsOn => IdentityLinkKind::DependsOn,
            IdentityLinkKind::OwnedBy => IdentityLinkKind::OwnedBy,
            IdentityLinkKind::SameAs => IdentityLinkKind::SameAs,
            IdentityLinkKind::Custom(x) => IdentityLinkKind::Custom(x.clone()),
        }
    }
}

/// A name under which a source knows an entity.
#[derive(Debug, PartialEq)]
pub struct IdentityAlias {
    pub source: String,
    pub namespace: Option<String>,
    pub external_id: Option<String>,
    pub label: String,
    pub normalized: String,
}

/// What an alias stands for.
pub struct IdentityAliasModel {
    pub source: Seq<char>,
    pub namespace: Option<Seq<char>>,
    pub external_id: Option<Seq<char>>,
    pub label: Seq<char>,
    pub normalized: Seq<char>,
}

impl View for IdentityAlias {
    type V = IdentityAliasModel;

    open spec fn view(&self) -> IdentityAliasModel {
        IdentityAliasModel {
            source: self.source@,
            namespace: opt_chars(self.namespace),
            external_id: opt_chars(self.external_id),
            label: self.label@,
            normalized: self.normalized@,
        }
    }
}

impl Clone for IdentityAlias {
    fn clone(&self) -> (r: Self)
        ensures
            r@ == self@,
    {
        IdentityAlias {
            source: self.source.clone(),
            namespace: clone_opt_string(&self.namespace),
            external_id: clone_opt_string(&self.external_id),
            label: self.label.clone(),
            normalized: self.normalized.clone(),
        }
    }
}

/// What a list of aliases stands for.
pub open spec fn alias_models(items: Seq<IdentityAlias>) -> Seq<IdentityAliasModel> {
    items.map_values(|item: IdentityAlias| item@)
}

/// Copies a list of aliases.
pub fn clone_aliases(items: &Vec<IdentityAlias>) -> (r: Vec<IdentityAlias>)
    ensures
        alias_models(r@) == alias_models(items@),
{
    let mut r: Vec<IdentityAlias> = Vec::new();
    let mut i: usize = 0;
    while i < items.len()
        invariant
            i <= items@.len(),
            r@.len() == i,
            forall|j: int| 0 <= j < i ==> (#[trigger] r@[j])@ == items@[j]@,
        decreases items@.len() - i,
    {
        r.push(items[i].clone());
        i += 1;
    }
    assert(alias_models(r@) =~= alias_models(items@));
    r
}

/// An entity known under several names.
#[derive(Debug, PartialEq)]
pub struct IdentityEntity {
    pub id: IdentityEntityId,
    pub tenant_id: Option<TenantId>,
    pub kind: IdentityEntityKind,
    pub canonical_key: String,
    pub display_name: String,
    pub aliases: Vec<IdentityAlias>,
    pub confidence: Number,
    pub metadata: Properties,
    pub created_by: ActorId,
    pub created_at: Timestamp,
    pub updated_at: Timestamp,
    pub caused_by: Option<EventId>,
}

/// What an entity stands for.
pub struct IdentityEntityModel {
    pub id: Seq<char>,
    pub tenant_id: Option<Seq<char>>,
    pub kind: IdentityEntityKindModel,
    pub canonical_key: Seq<char>,
    pub display_name: Seq<char>,
    pub aliases: Seq<IdentityAliasModel>,
    pub confidence: Number,
    pub metadata: Map<Seq<char>, ValueModel>,
    pub created_by: Seq<char>,
    pub created_at: Timestamp,
    pub updated_at: Timestamp,
    pub caused_by: Option<Seq<char>>,
}

impl View for IdentityEntity {
    type V = IdentityEntityModel;

    open spec fn view(&self) -> IdentityEntityModel {
        IdentityEntityModel {
            id: self.id@,
            tenant_id: opt_text(self.tenant_id),
            kind: self.kind@,
            canonical_key: self.canonical_key@,
            display_name: self.display_name@,
            aliases: alias_models(self.aliases@),
            confidence: self.confidence,
            metadata: self.metadata@,
            created_by: self.created_by@,
            created_at: self.created_at,
            updated_at: self.updated_at,
            caused_by: opt_text(self.caused_by),
        }
    }
}

impl Clone for IdentityEntity {
    fn clone(&self) -> (r: Self)
        ensures
            r@ == self@,
    {
        IdentityEntity {
            id: self.id.clone(),
            tenant_id: clone_opt_id(&self.tenant_id),
            kind: self.kind.clone(),
            canonical_key: self.canonical_key.clone(),
            display_name: self.display_name.clone(),
            aliases: clone_aliases(&self.aliases),
            confidence: self.confidence,
            metadata: self.metadata.clone(),
            created_by: self.created_by.clone(),
            created_at: self.created_at,
            updated_at: self.updated_at,
            caused_by: clone_opt_id(&self.caused_by),
        }
    }
}

/// A relation between two entities.
#[derive(Debug, PartialEq)]
pub struct IdentityLink {
    pub id: IdentityLinkId,
    pub tenant_id: Option<TenantId>,
    pub kind: IdentityLinkKind,
    pub from_entity_id: IdentityEntityId,
    pub to_entity_id: IdentityEntityId,
    pub confidence: Number,
    pub evidence_ids: Vec<EvidenceId>,
    pub claim_ids: Vec<ClaimId>,
    pub cell_ids: Vec<CausalCellId>,
    pub metadata: Properties,
    pub created_by: ActorId,
    pub created_at: Timestamp,
    pub caused_by: Option<EventId>,
}

/// What a link stands for.
pub struct IdentityLinkModel {
    pub id: Seq<char>,
    pub tenant_id: Option<Seq<char>>,
    pub kind: IdentityLinkKindModel,
    pub from_entity_id: Seq<char>,
    pub to_entity_id: Seq<char>,
    pub confidence: Number,
    pub evidence_ids: Seq<Seq<char>>,
    pub claim_ids: Seq<Seq<char>>,
    pub cell_ids: Seq<Seq<char>>,
    pub metadata: Map<Seq<char>, ValueModel>,
    pub created_by: Seq<char>,
    pub created_at: Timestamp,
    pub caused_by: Option<Seq<char>>,
}

impl View for IdentityLink {
    type V = IdentityLinkModel;

    open spec fn view(&self) -> IdentityLinkModel {
        IdentityLinkModel {
            id: self.id@,
            tenant_id: opt_text(self.tenant_id),
            kind: self.kind@,
            from_entity_id: self.from_entity_id@,
            to_entity_id: self.to_entity_id@,
            confidence: self.confidence,
            evidence_ids: texts(self.evidence_ids@),
            claim_ids: texts(self.claim_ids@),
            cell_ids: texts(self.cell_ids@),
            metadata: self.metadata@,
            created_by: self.created_by@,
            created_at: self.created_at,
            caused_by: opt_text(self.caused_by),
        }
    }
}

impl Clone for IdentityLink {
    fn clone(&self) -> (r: Self)
        ensures
            r@ == self@,
    {
        IdentityLink {
            id: self.id.clone(),
            tenant_id: clone_opt_id(&self.tenant_id),
            kind: self.kind.clone(),
            from_entity_id: self.from_entity_id.clone(),
            to_entity_id: self.to_entity_id.clone(),
            confidence: self.confidence,
            evidence_ids: clone_ids(&self.evidence_ids),
            claim_ids: clone_ids(&self.claim_ids),
            cell_ids: clone_ids(&self.cell_ids),
            metadata: self.metadata.clone(),
            created_by: self.created_by.clone(),
            created_at: self.created_at,
            caused_by: clone_opt_id(&self.caused_by),
        }
    }
}

/// The text that stands for a kind of entity: its name, or its label.
pub open spec fn identity_entity_kind_text(kind: IdentityEntityKindModel) -> Seq<char> {
    match kind {
        IdentityEntityKindModel::Dataset => "dataset"@,
        IdentityEntityKindModel::Service => "service"@,
        IdentityEntityKindModel::Source => "source"@,
        IdentityEntityKindModel::Custom(label) => label,
    }
}

impl IdentityEntityKind {
    /// The text that stands for the kind.
    pub fn discriminant(&self) -> (r: String)
        ensures
            r@ == identity_entity_kind_text(self@),
    {
        match self {
            IdentityEntityKind::Dataset => "dataset".to_owned(),
            IdentityEntityKind::Service => "service".to_owned(),
            IdentityEntityKind::Source => "source".to_owned(),
            IdentityEntityKind::Custom(label) => label.clone(),
        }
    }
}

/// The text that stands for a kind of link: its name, or its label.
pub open spec fn identity_link_kind_text(kind: IdentityLinkKindModel) -> Seq<char> {
    match kind {
        IdentityLinkKindModel::DependsOn => "depends_on"@,
        IdentityLinkKindModel::OwnedBy => "owned_by"@,
        IdentityLinkKindModel::SameAs => "same_as"@,
        IdentityLinkKindModel::Custom(label) => label,
    }
}

impl IdentityLinkKind {
    /// The text that stands for the kind.
    pub fn discriminant(&self) -> (r: String)
        ensures
            r@ == identity_link_kind_text(self@),
    {
        match self {
            IdentityLinkKind::DependsOn => "depends_on".to_owned(),
            IdentityLinkKind::OwnedBy => "owned_by".to_owned(),
            IdentityLinkKind::SameAs => "same_as".to_owned(),
            IdentityLinkKind::Custom(label) => label.clone(),
        }
    }
}

/// What stands for a missing tenant in index keys.
pub open spec fn no_tenant() -> Seq<char> {
    "__system__"@
}

/// What stands for a missing namespace in index keys.
pub open spec fn no_namespace() -> Seq<char> {
    "__none__"@
}

/// The text for a tenant in index keys.
pub open spec fn tenant_slot(tenant: Option<Seq<char>>) -> Seq<char> {
    match tenant {
        Some(t) => t,
        None => no_tenant(),
    }
}

/// The text for a tenant in index keys.
pub fn tenant_text(tenant: Option<&TenantId>) -> (r: &str)
    ensures
        r@ == tenant_slot(
            match tenant {
                Some(t) => Some(t@),
                None => None,
            },
        ),
{
    match tenant {
        Some(t) => t.as_str(),
        None => "__system__",
    }
}

/// Whether the text is one that stands for something missing.
pub open spec fn reserved(text: Seq<char>) -> bool {
    text == no_tenant() || text == no_namespace()
}

fn is_reserved(text: &str) -> (r: bool)
    ensures
        r == reserved(text@),
{
    str_same(text, "__system__") || str_same(text, "__none__")
}

impl IdentityAliasModel {
    /// The key under which the alias is found within a tenant.
    pub open spec fn index_key(self, tenant: Option<Seq<char>>) -> Seq<char> {
        alias_key(tenant, self.source, self.namespace, self.normalized)
    }

    /// What is wrong with the alias, if anything.
    pub open spec fn fault(self) -> Option<Seq<char>> {
        if self.source.len() == 0 {
            Some("alias source must not be empty"@)
        } else if self.normalized.len() == 0 {
            Some("alias normalized must not be empty"@)
        } else if reserved(self.source) {
            Some("alias source is a reserved sentinel: "@ + self.source)
        } else if self.namespace is Some && reserved(self.namespace->0) {
            Some("alias namespace is a reserved sentinel: "@ + self.namespace->0)
        } else if reserved(self.normalized) {
            Some("alias normalized is a reserved sentinel: "@ + self.normalized)
        } else {
            None
        }
    }
}

/// The key under which a name of a source is found within a tenant.
pub open spec fn alias_key(
    tenant: Option<Seq<char>>,
    source: Seq<char>,
    namespace: Option<Seq<char>>,
    normalized: Seq<char>,
) -> Seq<char> {
    tenant_slot(tenant) + "|"@ + source + "|"@ + (match namespace {
        Some(n) => n,
        None => no_namespace(),
    }) + "|"@ + normalized
}

/// The key under which a name of a source is found within a tenant.
pub fn alias_index_key(tenant: Option<&TenantId>, source: &str, namespace: Option<&str>, normalized: &str) -> (r: String)
    ensures
        r@ == alias_key(
            match tenant {
                Some(t) => Some(t@),
                None => None,
            },
            source@,
            match namespace {
                Some(n) => Some(n@),
                None => None,
            },
            normalized@,
        ),
{
    let mut r = tenant_text(tenant).to_owned();
    r.append("|");
    r.append(source);
    r.append("|");
    match namespace {
        Some(n) => r.append(n),
        None => r.append("__none__"),
    }
    r.append("|");
    r.append(normalized);
    r
}

impl IdentityAlias {
    /// The key under which the alias is found within a tenant.
    pub fn index_key(&self, tenant: Option<&TenantId>) -> (r: String)
        ensures
            r@ == self@.index_key(
                match tenant {
                    Some(t) => Some(t@),
                    None => None,
                },
            ),
    {
        let namespace: Option<&str> = match &self.namespace {
            Some(n) => Some(n.as_str()),
            None => None,
        };
        alias_index_key(tenant, self.source.as_str(), namespace, self.normalized.as_str())
    }

    /// Checks the alias: source and normalized name are there, and nothing is one of the
    /// texts that stand for something missing.
    pub fn validate(&self) -> (r: Result<(), String>)
        ensures
            match r {
                Ok(_) => self@.fault() is None,
                Err(message) => self@.fault() == Some(message@),
            },
    {
        if self.source.as_str().is_empty() {
            return Err("alias source must not be empty".to_owned());
        }
        if self.normalized.as_str().is_empty() {
            return Err("alias normalized must not be empty".to_owned());
        }
        if is_reserved(self.source.as_str()) {
            let mut message = "alias source is a reserved sentinel: ".to_owned();
            message.append(self.source.as_str());
            return Err(message);
        }
        if let Some(namespace) = &self.namespace {
            if is_reserved(namespace.as_str()) {
                let mut message = "alias namespace is a reserved sentinel: ".to_owned();
                message.append(namespace.as_str());
                return Err(message);
            }
        }
        if is_reserved(self.normalized.as_str()) {
            let mut message = "alias normalized is a reserved sentinel: ".to_owned();
            message.append(self.normalized.as_str());
            return Err(message);
        }
        Ok(())
    }
}

/// Whether the text names a built-in kind of link.
pub open spec fn built_in_link_kind(text: Seq<char>) -> bool {
    text == "depends_on"@ || text == "owned_by"@ || text == "same_as"@
}

impl IdentityLinkModel {
    /// What is wrong with the link itself, if anything.
    pub open spec fn fault(self) -> Option<Seq<char>> {
        if self.from_entity_id == self.to_entity_id {
            Some("self-link rejected: "@ + self.from_entity_id)
        } else {
            match self.kind {
                IdentityLinkKindModel::Custom(label) => {
                    if label.len() == 0 {
                        Some("custom link kind must not be empty"@)
                    } else if reserved(label) {
                        Some("custom link kind is a reserved sentinel: "@ + label)
                    } else if built_in_link_kind(label) {
                        Some("custom link kind names a built-in kind: "@ + label)
                    } else {
                        None
                    }
                },
                _ => None,
            }
        }
    }
}

impl IdentityLink {
    /// Checks the link itself: it joins two different entities, and a label of its own is
    /// there, is no text that stands for something missing, and names no built-in kind.
    pub fn validate(&self) -> (r: Result<(), String>)
        ensures
            match r {
                Ok(_) => self@.fault() is None,
                Err(message) => self@.fault() == Some(message@),
            },
    {
        if self.from_entity_id.same(&self.to_entity_id) {
            let mut message = "self-link rejected: ".to_owned();
            message.append(self.from_entity_id.as_str());
            return Err(message);
        }
        if let IdentityLinkKind::Custom(label) = &self.kind {
            if label.as_str().is_empty() {
                return Err("custom link kind must not be empty".to_owned());
            }
            if is_reserved(label.as_str()) {
                let mut message = "custom link kind is a reserved sentinel: ".to_owned();
                message.append(label.as_str());
                return Err(message);
            }
            if str_same(label.as_str(), "depends_on") || str_same(label.as_str(), "owned_by") || str_same(
                label.as_str(),
                "same_as",
            ) {
                let mut message = "custom link kind names a built-in kind: ".to_owned();
                message.append(label.as_str());
                return Err(message);
            }
        }
        Ok(())
    }
}

} // verus!
