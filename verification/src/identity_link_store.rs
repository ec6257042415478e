//! The store of links between entities, derived from events.

use crate::error::{query_error, same_outcome, ErrorModel, HydraError};
use crate::event::{event_models, Event, EventKind, EventModel};
use crate::identity::{identity_link_kind_text, tenant_slot, tenant_text, IdentityLink, IdentityLinkKind, IdentityLinkModel};
use crate::identity_store::{IdentityModel, IdentityStore};
use crate::ids::{ascending, opt_text, same_opt_id, texts, IdentityEntityId, IdentityLinkId, TenantId};
use crate::index::{insert_id, remove_from_index, Index};
use crate::table::{all_records, filed, lists, lists_in_order, map_views, picked, views, Table};
use vstd::hash_map::StringHashMap;
use vstd::prelude::*;
use vstd::string::StringExecFns;

verus! {

/// What the store stands for: links by identifier, and which link each pair key leads to.
pub struct IdentityLinkStoreModel {
    pub links: Map<Seq<char>, IdentityLinkModel>,
    pub pairs: Map<Seq<char>, Seq<char>>,
}

/// The key under which a link is unique within its tenant.
pub open spec fn pair_key_of(link: IdentityLinkModel) -> Seq<char> {
    tenant_slot(link.tenant_id) + "|"@ + link.from_entity_id + "|"@ + link.to_entity_id + "|"@ + identity_link_kind_text(
        link.kind,
    )
}

/// Whether an entity is known, and within the given tenant.
pub open spec fn visible(entities: IdentityModel, id: Seq<char>, tenant: Option<Seq<char>>) -> bool {
    entities.entities.contains_key(id) && entities.entities[id].tenant_id == tenant
}

impl IdentityLinkStoreModel {
    /// Nothing recorded.
    pub open spec fn empty() -> IdentityLinkStoreModel {
        IdentityLinkStoreModel { links: Map::empty(), pairs: Map::empty() }
    }

    /// The state with a link put in place of the one with its identifier. The pair key of
    /// the link it replaces is dropped first.
    pub open spec fn inserted(self, link: IdentityLinkModel) -> IdentityLinkStoreModel {
        let pairs = if self.links.contains_key(link.id) {
            self.pairs.remove(pair_key_of(self.links[link.id]))
        } else {
            self.pairs
        };
        IdentityLinkStoreModel {
            links: self.links.insert(link.id, link),
            pairs: pairs.insert(pair_key_of(link), link.id),
        }
    }

    /// The state after an event.
    pub open spec fn after(self, event: EventModel) -> Result<IdentityLinkStoreModel, ErrorModel> {
        match event.kind {
            EventKind::IdentityLinkCreated { link } => Ok(self.inserted(link@)),
            _ => Ok(self),
        }
    }

    /// Why a new link is refused, if it is: its identifier is known, it is faulty, one of
    /// its entities is not visible to its tenant, or there is such a link already.
    pub open spec fn refusal(self, link: IdentityLinkModel, entities: IdentityModel) -> Option<ErrorModel> {
        if self.links.contains_key(link.id) {
            Some(ErrorModel::QueryError("identity link id already exists: "@ + link.id))
        } else if link.fault() is Some {
            Some(ErrorModel::QueryError(link.fault()->0))
        } else if !visible(entities, link.from_entity_id, link.tenant_id) {
            Some(ErrorModel::QueryError("unknown identity entity: "@ + link.from_entity_id))
        } else if !visible(entities, link.to_entity_id, link.tenant_id) {
            Some(ErrorModel::QueryError("unknown identity entity: "@ + link.to_entity_id))
        } else if self.pairs.contains_key(pair_key_of(link)) {
            Some(
                ErrorModel::QueryError(
                    "duplicate link (from="@ + link.from_entity_id + ", to="@ + link.to_entity_id + ", kind="@
                        + identity_link_kind_text(link.kind) + ") — already mapped to link "@ + self.pairs[pair_key_of(
                        link,
                    )],
                ),
            )
        } else {
            None
        }
    }

    /// The state after a list of events, up to the first that is refused.
    pub open spec fn after_all(self, events: Seq<EventModel>) -> (IdentityLinkStoreModel, Result<(), ErrorModel>)
        decreases events.len(),
    {
        if events.len() == 0 {
            (self, Ok(()))
        } else {
            match self.after(events[0]) {
                Ok(next) => next.after_all(events.skip(1)),
                Err(e) => (self, Err(e)),
            }
        }
    }
}

/// Links between entities, with indexes for queries and for uniqueness.
pub struct IdentityLinkStore {
    pub by_id: Table<IdentityLink>,
    pub by_kind: Index<String>,
    pub by_from: Index<IdentityEntityId>,
    pub by_to: Index<IdentityEntityId>,
    pub by_tenant: Index<TenantId>,
    /// The link that each pair key leads to.
    pub by_pair_kind: StringHashMap<IdentityLinkId>,
}

impl View for IdentityLinkStore {
    type V = IdentityLinkStoreModel;

    open spec fn view(&self) -> IdentityLinkStoreModel {
        IdentityLinkStoreModel { links: map_views(self.by_id@), pairs: map_views(self.by_pair_kind@) }
    }
}

impl Default for IdentityLinkStore {
    fn default() -> (r: Self)
        ensures
            r.inv(),
            r@ == IdentityLinkStoreModel::empty(),
    {
        IdentityLinkStore::new()
    }
}

fn pair_kind_index_key(link: &IdentityLink) -> (r: String)
    ensures
        r@ == pair_key_of(link@),
{
    let tenant: Option<&TenantId> = match &link.tenant_id {
        Some(t) => Some(t),
        None => None,
    };
    let mut r = tenant_text(tenant).to_owned();
    r.append("|");
    r.append(link.from_entity_id.as_str());
    r.append("|");
    r.append(link.to_entity_id.as_str());
    r.append("|");
    r.append(link.kind.discriminant().as_str());
    r
}

fn is_visible(entities: &IdentityStore, id: &IdentityEntityId, tenant: &Option<TenantId>) -> (r: bool)
    requires
        entities.inv(),
    ensures
        r == visible(entities@, id@, opt_text(*tenant)),
{
    match entities.entity(id) {
        Some(entity) => same_opt_id(&entity.tenant_id, tenant),
        None => false,
    }
}

impl IdentityLinkStore {
    /// The tables are well formed, every record stands under its own identifier, and
    /// the indexes file exactly the records that have each key.
    pub open spec fn inv(&self) -> bool {
        &&& self.by_id.wf()
        &&& self.by_kind.wf()
        &&& self.by_from.wf()
        &&& self.by_to.wf()
        &&& self.by_tenant.wf()
        &&& forall|t: Seq<char>| #[trigger] self@.links.contains_key(t) ==> self@.links[t].id == t
        &&& forall|k: Seq<char>, t: Seq<char>| #[trigger]
            self.by_kind.has(k, t) <==> self@.links.contains_key(t) && identity_link_kind_text(self@.links[t].kind) == k
        &&& forall|k: Seq<char>, t: Seq<char>| #[trigger]
            self.by_from.has(k, t) <==> self@.links.contains_key(t) && self@.links[t].from_entity_id == k
        &&& forall|k: Seq<char>, t: Seq<char>| #[trigger]
            self.by_to.has(k, t) <==> self@.links.contains_key(t) && self@.links[t].to_entity_id == k
        &&& forall|k: Seq<char>, t: Seq<char>| #[trigger]
            self.by_tenant.has(k, t) <==> self@.links.contains_key(t) && self@.links[t].tenant_id == Some(k)
    }

    /// A store without links.
    pub fn new() -> (r: Self)
        ensures
            r.inv(),
            r@ == IdentityLinkStoreModel::empty(),
    {
        let r = IdentityLinkStore {
            by_id: Table::new(),
            by_kind: Index::new(),
            by_from: Index::new(),
            by_to: Index::new(),
            by_tenant: Index::new(),
            by_pair_kind: StringHashMap::new(),
        };
        assert(r@.links =~= Map::<Seq<char>, IdentityLinkModel>::empty());
        assert(r@.pairs =~= Map::<Seq<char>, Seq<char>>::empty());
        r
    }

    /// The number of links.
    pub fn link_count(&self) -> (r: usize)
        requires
            self.inv(),
        ensures
            r == self@.links.len(),
    {
        assert(self@.links.dom() =~= self.by_id@.dom());
        self.by_id.len()
    }

    /// The one of the links with the identifier.
    pub fn link(&self, id: &IdentityLinkId) -> (r: Option<&IdentityLink>)
        requires
            self.inv(),
        ensures
            match r {
                Some(v) => self@.links.contains_key(id@) && v@ == self@.links[id@],
                None => !self@.links.contains_key(id@),
            },
    {
        self.by_id.get(id)
    }

    /// All links, each once, in the order in which they were first recorded.
    pub fn all_links(&self) -> (r: Vec<&IdentityLink>)
        requires
            self.inv(),
        ensures
            r@.len() == self.by_id.order().len(),
            self.by_id.order().no_duplicates(),
            forall|t: Seq<char>| #[trigger] self.by_id.order().contains(t) <==> self@.links.contains_key(t),
            forall|i: int| 0 <= i < r@.len() ==> #[trigger] views(r@)[i] == self@.links[self.by_id.order()[i]],
    {
        all_records(&self.by_id)
    }

    /// The links of a kind, in ascending order of their identifiers. Kinds are told apart by
    /// the texts that stand for them.
    pub fn links_with_kind(&self, kind: &IdentityLinkKind) -> (r: Vec<&IdentityLink>)
        requires
            self.inv(),
        ensures
            lists(
                views(r@),
                self@.links,
                Set::new(|t: Seq<char>| self@.links.contains_key(t) && identity_link_kind_text(self@.links[t].kind) == identity_link_kind_text(kind@)),
            ),
    {
        let key = kind.discriminant();
        let r = filed(&self.by_id, &self.by_kind, &key);
        assert(Set::new(|t: Seq<char>| self.by_kind.has(identity_link_kind_text(kind@), t)) =~= Set::new(
            |t: Seq<char>| self@.links.contains_key(t) && identity_link_kind_text(self@.links[t].kind) == identity_link_kind_text(kind@),
        ));
        r
    }

    /// The links that leave an entity.
    pub fn links_from(&self, from: &IdentityEntityId) -> (r: Vec<&IdentityLink>)
        requires
            self.inv(),
        ensures
            lists(
                views(r@),
                self@.links,
                Set::new(|t: Seq<char>| self@.links.contains_key(t) && self@.links[t].from_entity_id == from@),
            ),
    {
        let r = filed(&self.by_id, &self.by_from, from);
        assert(Set::new(|t: Seq<char>| self.by_from.has(from@, t)) =~= Set::new(
            |t: Seq<char>| self@.links.contains_key(t) && self@.links[t].from_entity_id == from@,
        ));
        r
    }

    /// The links that lead to an entity.
    pub fn links_to(&self, to: &IdentityEntityId) -> (r: Vec<&IdentityLink>)
        requires
            self.inv(),
        ensures
            lists(
                views(r@),
                self@.links,
                Set::new(|t: Seq<char>| self@.links.contains_key(t) && self@.links[t].to_entity_id == to@),
            ),
    {
        let r = filed(&self.by_id, &self.by_to, to);
        assert(Set::new(|t: Seq<char>| self.by_to.has(to@, t)) =~= Set::new(
            |t: Seq<char>| self@.links.contains_key(t) && self@.links[t].to_entity_id == to@,
        ));
        r
    }

    /// The links of a tenant. Links without a tenant are in no such list.
    pub fn links_for_tenant(&self, tenant: &TenantId) -> (r: Vec<&IdentityLink>)
        requires
            self.inv(),
        ensures
            lists(
                views(r@),
                self@.links,
                Set::new(|t: Seq<char>| self@.links.contains_key(t) && self@.links[t].tenant_id == Some(tenant@)),
            ),
    {
        let r = filed(&self.by_id, &self.by_tenant, tenant);
        assert(Set::new(|t: Seq<char>| self.by_tenant.has(tenant@, t)) =~= Set::new(
            |t: Seq<char>| self@.links.contains_key(t) && self@.links[t].tenant_id == Some(tenant@),
        ));
        r
    }

    /// The links that leave an entity or lead to it, each once.
    pub fn links_for_entity(&self, entity: &IdentityEntityId) -> (r: Vec<&IdentityLink>)
        requires
            self.inv(),
        ensures
            lists(
                views(r@),
                self@.links,
                Set::new(
                    |t: Seq<char>|
                        self@.links.contains_key(t) && (self@.links[t].from_entity_id == entity@
                            || self@.links[t].to_entity_id == entity@),
                ),
            ),
    {
        let mut ids = self.by_from.ids(entity);
        let others = self.by_to.ids(entity);
        let ghost first = texts(ids@);
        let mut i: usize = 0;
        assert(texts(others@).take(0) =~= Seq::<Seq<char>>::empty());
        while i < others.len()
            invariant
                i <= others@.len(),
                ascending(texts(ids@)),
                forall|t: Seq<char>| #[trigger]
                    texts(ids@).contains(t) <==> first.contains(t) || texts(others@).take(i as int).contains(t),
            decreases others@.len() - i,
        {
            insert_id(&mut ids, others[i].clone());
            proof {
                let shorter = texts(others@).take(i as int);
                let t = others@[i as int]@;
                let longer = texts(others@).take(i + 1);
                assert(longer =~= shorter.push(t));
                assert forall|u: Seq<char>| #[trigger] longer.contains(u) <==> shorter.contains(u) || u == t by {
                    if shorter.contains(u) {
                        assert(longer[shorter.index_of(u)] == u);
                    }
                    assert(longer[i as int] == t);
                }
            }
            i += 1;
        }
        assert(texts(others@).take(others@.len() as int) =~= texts(others@));
        let ghost wanted = Set::new(
            |t: Seq<char>|
                self@.links.contains_key(t) && (self@.links[t].from_entity_id == entity@
                    || self@.links[t].to_entity_id == entity@),
        );
        proof {
            assert forall|t: Seq<char>| #[trigger] texts(ids@).contains(t) <==> wanted.contains(t) by {
                assert(first.contains(t) <==> self.by_from.has(entity@, t));
                assert(texts(others@).contains(t) <==> self.by_to.has(entity@, t));
            }
        }
        let r = picked(&self.by_id, &ids);
        assert(lists_in_order(views(r@), self@.links, wanted, texts(ids@)));
        r
    }

    /// Puts a link in place of the one with its identifier, without the checks made of a
    /// new link.
    pub fn insert_link(&mut self, link: IdentityLink)
        requires
            old(self).inv(),
        ensures
            final(self).inv(),
            final(self)@ == old(self)@.inserted(link@),
    {
        let ghost before = self@;
        let ghost stored = link@;
        let id = link.id.clone();
        if let Some(existing) = self.by_id.get(&id) {
            remove_from_index(&mut self.by_kind, &existing.kind.discriminant(), &id);
            remove_from_index(&mut self.by_from, &existing.from_entity_id, &id);
            remove_from_index(&mut self.by_to, &existing.to_entity_id, &id);
            if let Some(key) = &existing.tenant_id {
                remove_from_index(&mut self.by_tenant, key, &id);
            }
            let pair = pair_kind_index_key(existing);
            self.by_pair_kind.remove(pair.as_str());
            assert(self@.pairs =~= before.pairs.remove(pair_key_of(existing@)));
        }
        let ghost middle = self@;
        self.by_kind.insert(link.kind.discriminant(), id.clone());
        self.by_from.insert(link.from_entity_id.clone(), id.clone());
        self.by_to.insert(link.to_entity_id.clone(), id.clone());
        if let Some(key) = &link.tenant_id {
            self.by_tenant.insert(key.clone(), id.clone());
        }
        let pair = pair_kind_index_key(&link);
        self.by_pair_kind.insert(pair, id.clone());
        self.by_id.insert(id, link);
        proof {
            assert(self@.links =~= before.links.insert(stored.id, stored));
            assert(self@.pairs =~= middle.pairs.insert(pair_key_of(stored), stored.id));
        }
    }

    /// Adds a new link. It has to be sound in itself, join two entities of its own tenant,
    /// and be the only one of its kind between them; a link that is refused changes
    /// nothing. An entity of another tenant is answered as one that does not exist.
    pub fn create_link(&mut self, link: IdentityLink, entities: &IdentityStore) -> (r: Result<
        IdentityLink,
        HydraError,
    >)
        requires
            old(self).inv(),
            entities.inv(),
        ensures
            final(self).inv(),
            match old(self)@.refusal(link@, entities@) {
                Some(e) => r is Err && r->Err_0@ == e && final(self)@ == old(self)@,
                None => r is Ok && r->Ok_0@ == link@ && final(self)@ == old(self)@.inserted(link@),
            },
    {
        if self.by_id.contains(&link.id) {
            return Err(query_error("identity link id already exists: ", link.id.as_str()));
        }
        match link.validate() {
            Ok(_) => {},
            Err(message) => {
                return Err(HydraError::QueryError(message));
            },
        }
        if !is_visible(entities, &link.from_entity_id, &link.tenant_id) {
            return Err(query_error("unknown identity entity: ", link.from_entity_id.as_str()));
        }
        if !is_visible(entities, &link.to_entity_id, &link.tenant_id) {
            return Err(query_error("unknown identity entity: ", link.to_entity_id.as_str()));
        }
        let pair = pair_kind_index_key(&link);
        if let Some(existing) = self.by_pair_kind.get(pair.as_str()) {
            assert(self@.pairs.contains_key(pair@));
            let mut message = "duplicate link (from=".to_owned();
            message.append(link.from_entity_id.as_str());
            message.append(", to=");
            message.append(link.to_entity_id.as_str());
            message.append(", kind=");
            message.append(link.kind.discriminant().as_str());
            message.append(") — already mapped to link ");
            message.append(existing.as_str());
            return Err(HydraError::QueryError(message));
        }
        assert(!self@.pairs.contains_key(pair@));
        let copy = link.clone();
        self.insert_link(link);
        Ok(copy)
    }

    /// Applies an event. Events of other kinds are ignored.
    pub fn apply_event(&mut self, event: &Event) -> (r: Result<(), HydraError>)
        requires
            old(self).inv(),
        ensures
            final(self).inv(),
            match old(self)@.after(event@) {
                Ok(next) => r is Ok && final(self)@ == next,
                Err(e) => r is Err && r->Err_0@ == e && final(self)@ == old(self)@,
            },
    {
        if let EventKind::IdentityLinkCreated { link } = &event.kind {
            self.insert_link(link.clone());
        }
        Ok(())
    }

    /// Applies events in order, up to the first that is refused.
    pub fn apply_events(&mut self, events: &Vec<Event>) -> (r: Result<(), HydraError>)
        requires
            old(self).inv(),
        ensures
            final(self).inv(),
            final(self)@ == old(self)@.after_all(event_models(events@)).0,
            same_outcome(r, old(self)@.after_all(event_models(events@)).1),
    {
        let ghost before = self@;
        let mut i: usize = 0;
        let ghost models = event_models(events@);
        assert(models.skip(0) =~= models);
        while i < events.len()
            invariant
                i <= events@.len(),
                self.inv(),
                before == old(self)@,
                models == event_models(events@),
                self@.after_all(models.skip(i as int)) == before.after_all(models),
            decreases events@.len() - i,
        {
            proof {
                assert(models.skip(i as int)[0] == events@[i as int]@);
                assert(models.skip(i as int).skip(1) =~= models.skip(i + 1));
            }
            match self.apply_event(&events[i]) {
                Ok(_) => {},
                Err(e) => {
                    return Err(e);
                },
            }
            i += 1;
        }
        Ok(())
    }
}

/// An entity of another tenant cannot be told from one that does not exist: the answer to
/// a new link depends on the entities only through which of the two ends its tenant sees.
pub proof fn law_other_tenants_stay_hidden(
    store: IdentityLinkStoreModel,
    link: IdentityLinkModel,
    one: IdentityModel,
    other: IdentityModel,
)
    requires
        visible(one, link.from_entity_id, link.tenant_id) == visible(other, link.from_entity_id, link.tenant_id),
        visible(one, link.to_entity_id, link.tenant_id) == visible(other, link.to_entity_id, link.tenant_id),
    ensures
        store.refusal(link, one) == store.refusal(link, other),
{
}

/// The pair keys lead to exactly the links that have them.
pub open spec fn pairs_are_faithful(store: IdentityLinkStoreModel) -> bool {
    &&& forall|t: Seq<char>| #[trigger]
        store.links.contains_key(t) ==> {
            &&& store.links[t].id == t
            &&& store.pairs.contains_key(pair_key_of(store.links[t]))
            &&& store.pairs[pair_key_of(store.links[t])] == t
        }
    &&& forall|k: Seq<char>| #[trigger]
        store.pairs.contains_key(k) ==> store.links.contains_key(store.pairs[k]) && pair_key_of(
            store.links[store.pairs[k]],
        ) == k
}

/// Creating links keeps the pair keys faithful. So no two links of a tenant join the same
/// entities in the same way, and the link just created is refused a second time.
pub proof fn law_created_links_are_unique(
    store: IdentityLinkStoreModel,
    link: IdentityLinkModel,
    entities: IdentityModel,
    again: IdentityLinkModel,
)
    requires
        pairs_are_faithful(store),
        store.refusal(link, entities) is None,
        pair_key_of(again) == pair_key_of(link),
    ensures
        pairs_are_faithful(store.inserted(link)),
        store.inserted(link).refusal(again, entities) is Some,
        store.inserted(link).links[link.id].from_entity_id != store.inserted(link).links[link.id].to_entity_id,
{
    let next = store.inserted(link);
    assert forall|t: Seq<char>| #[trigger] next.links.contains_key(t) implies {
        &&& next.links[t].id == t
        &&& next.pairs.contains_key(pair_key_of(next.links[t]))
        &&& next.pairs[pair_key_of(next.links[t])] == t
    } by {
        if t != link.id {
            assert(store.links.contains_key(t));
        }
    }
    assert forall|k: Seq<char>| #[trigger] next.pairs.contains_key(k) implies next.links.contains_key(next.pairs[k])
        && pair_key_of(next.links[next.pairs[k]]) == k by {
        if k != pair_key_of(link) {
            assert(store.pairs.contains_key(k));
        }
    }
}

} // verus!
