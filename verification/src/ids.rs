//! Identifiers: opaque texts, compared and ordered by their characters.

use crate::text::{str_less, text_less};
use vstd::prelude::*;

verus! {

/// An identifier. Two identifiers are the same when their texts are.
#[derive(Debug, PartialEq, Eq, PartialOrd, Ord, Hash)]
pub struct Id {
    pub text: String,
}

impl View for Id {
    type V = Seq<char>;

    open spec fn view(&self) -> Seq<char> {
        self.text@
    }
}

impl Clone for Id {
    fn clone(&self) -> (r: Self)
        ensures
            r == *self,
    {
        Id { text: self.text.clone() }
    }
}

impl Id {
    /// The identifier with the given text.
    pub fn from_str(text: &str) -> (r: Self)
        ensures
            r@ == text@,
    {
        Id { text: text.to_owned() }
    }

    /// The identifier's text.
    pub fn as_str(&self) -> (r: &str)
        ensures
            r@ == self@,
    {
        self.text.as_str()
    }

    /// Whether both identifiers have the same text.
    pub fn same(&self, other: &Self) -> (r: bool)
        ensures
            r == (self@ == other@),
    {
        self.text == other.text
    }

    /// Whether this identifier precedes the other in text order.
    pub fn precedes(&self, other: &Self) -> (r: bool)
        ensures
            r == text_less(self@, other@),
    {
        str_less(self.text.as_str(), other.text.as_str())
    }
}

pub type NodeId = Id;

pub type EdgeId = Id;

pub type EventId = Id;

pub type CascadeId = Id;

pub type SubscriptionId = Id;

pub type TenantId = Id;

pub type ActorId = Id;

pub type EvidenceId = Id;

pub type ClaimId = Id;

pub type ActionId = Id;

pub type OutcomeId = Id;

pub type PolicyId = Id;

pub type PolicyDecisionId = Id;

pub type ApprovalId = Id;

pub type CommitId = Id;

pub type IdempotencyKey = Id;

pub type EventHash = Id;

pub type CommitHash = Id;

pub type CausalCellId = Id;

pub type IdentityEntityId = Id;

pub type IdentityLinkId = Id;

pub type MicroModelId = Id;

pub type MicroModelRunId = Id;

/// The texts of a list of identifiers.
pub open spec fn texts(ids: Seq<Id>) -> Seq<Seq<char>> {
    ids.map_values(|id: Id| id@)
}

/// Every text precedes those behind it; in particular none occurs twice.
pub open spec fn ascending(s: Seq<Seq<char>>) -> bool {
    forall|i: int, j: int| 0 <= i < j < s.len() ==> text_less(#[trigger] s[i], #[trigger] s[j])
}

/// Copies a list of identifiers.
pub fn clone_ids(ids: &Vec<Id>) -> (r: Vec<Id>)
    ensures
        r@ == ids@,
{
    let mut r: Vec<Id> = Vec::new();
    let mut i: usize = 0;
    while i < ids.len()
        invariant
            i <= ids.len(),
            r@ == ids@.take(i as int),
        decreases ids.len() - i,
    {
        r.push(ids[i].clone());
        i += 1;
        assert(r@ =~= ids@.take(i as int));
    }
    assert(ids@.take(ids@.len() as int) =~= ids@);
    r
}

/// Copies an optional identifier.
pub fn clone_opt_id(id: &Option<Id>) -> (r: Option<Id>)
    ensures
        r == *id,
{
    match id {
        Some(x) => Some(x.clone()),
        None => None,
    }
}

/// The text of an optional identifier.
pub open spec fn opt_text(id: Option<Id>) -> Option<Seq<char>> {
    match id {
        Some(x) => Some(x@),
        None => None,
    }
}

/// Whether two optional identifiers have the same text.
pub fn same_opt_id(a: &Option<Id>, b: &Option<Id>) -> (r: bool)
    ensures
        r == (opt_text(*a) == opt_text(*b)),
{
    match (a, b) {
        (Some(x), Some(y)) => x.same(y),
        (None, None) => true,
        _ => false,
    }
}

/// Whether the list holds the identifier.
pub fn holds_id(ids: &Vec<Id>, id: &Id) -> (r: bool)
    ensures
        r == texts(ids@).contains(id@),
{
    let mut i: usize = 0;
    while i < ids.len()
        invariant
            i <= ids.len(),
            forall|j: int| 0 <= j < i ==> (#[trigger] ids@[j])@ != id@,
        decreases ids.len() - i,
    {
        if ids[i].same(id) {
            assert(texts(ids@)[i as int] == id@);
            return true;
        }
        i += 1;
    }
    assert forall|j: int| 0 <= j < texts(ids@).len() implies texts(ids@)[j] != id@ by {
        assert(texts(ids@)[j] == ids@[j]@);
    }
    false
}

} // verus!
