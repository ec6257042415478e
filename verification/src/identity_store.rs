//! The store of entities, derived from events, with uniqueness of names.

use crate::error::{query_error, same_outcome, ErrorModel, HydraError};
use crate::event::{event_models, Event, EventKind, EventModel};
use crate::identity::{alias_index_key, alias_key, alias_models, identity_entity_kind_text, tenant_slot, tenant_text, IdentityAlias, IdentityAliasModel, IdentityEntity, IdentityEntityKind, IdentityEntityModel};
use crate::ids::{opt_text, Id, IdentityEntityId, TenantId};
use crate::index::{remove_from_index, Index};
use crate::table::{all_records, filed, lists, map_views, views, Table};
use crate::text::{quote, quoted};
use vstd::hash_map::StringHashMap;
use vstd::prelude::*;
use vstd::string::StringExecFns;

verus! {

/// What the store stands for: entities by identifier, and which entity each alias key
/// and each canonical key leads to.
pub struct IdentityModel {
    pub entities: Map<Seq<char>, IdentityEntityModel>,
    pub aliases: Map<Seq<char>, Seq<char>>,
    pub canonical: Map<Seq<char>, Seq<char>>,
}

/// The key under which an entity is unique within its tenant and kind.
pub open spec fn canonical_key_of(entity: IdentityEntityModel) -> Seq<char> {
    tenant_slot(entity.tenant_id) + "|"@ + identity_entity_kind_text(entity.kind) + "|"@ + entity.canonical_key
}

/// The alias keys with those of a list of aliases removed.
pub open spec fn without_aliases(
    keys: Map<Seq<char>, Seq<char>>,
    tenant: Option<Seq<char>>,
    aliases: Seq<IdentityAliasModel>,
) -> Map<Seq<char>, Seq<char>>
    decreases aliases.len(),
{
    if aliases.len() == 0 {
        keys
    } else {
        without_aliases(keys, tenant, aliases.drop_last()).remove(aliases.last().index_key(tenant))
    }
}

/// The alias keys with those of a list of aliases leading to the entity.
pub open spec fn with_aliases(
    keys: Map<Seq<char>, Seq<char>>,
    tenant: Option<Seq<char>>,
    aliases: Seq<IdentityAliasModel>,
    id: Seq<char>,
) -> Map<Seq<char>, Seq<char>>
    decreases aliases.len(),
{
    if aliases.len() == 0 {
        keys
    } else {
        with_aliases(keys, tenant, aliases.drop_last(), id).insert(aliases.last().index_key(tenant), id)
    }
}

/// What is wrong with the first faulty alias of a list, if there is one.
pub open spec fn alias_fault(aliases: Seq<IdentityAliasModel>) -> Option<Seq<char>>
    decreases aliases.len(),
{
    if aliases.len() == 0 {
        None
    } else if aliases[0].fault() is Some {
        aliases[0].fault()
    } else {
        alias_fault(aliases.skip(1))
    }
}

/// The key of the first alias of a list that leads to an entity already, if there is one.
pub open spec fn alias_clash(
    keys: Map<Seq<char>, Seq<char>>,
    tenant: Option<Seq<char>>,
    aliases: Seq<IdentityAliasModel>,
) -> Option<Seq<char>>
    decreases aliases.len(),
{
    if aliases.len() == 0 {
        None
    } else if keys.contains_key(aliases[0].index_key(tenant)) {
        Some(aliases[0].index_key(tenant))
    } else {
        alias_clash(keys, tenant, aliases.skip(1))
    }
}

impl IdentityModel {
    /// Nothing recorded.
    pub open spec fn empty() -> IdentityModel {
        IdentityModel { entities: Map::empty(), aliases: Map::empty(), canonical: Map::empty() }
    }

    /// The state without the keys of an entity.
    pub open spec fn without_keys(self, entity: IdentityEntityModel) -> IdentityModel {
        IdentityModel {
            aliases: without_aliases(self.aliases, entity.tenant_id, entity.aliases),
            canonical: self.canonical.remove(canonical_key_of(entity)),
            ..self
        }
    }

    /// The state with an entity added, and its keys leading to it.
    pub open spec fn with_keys(self, entity: IdentityEntityModel) -> IdentityModel {
        IdentityModel {
            entities: self.entities.insert(entity.id, entity),
            aliases: with_aliases(self.aliases, entity.tenant_id, entity.aliases, entity.id),
            canonical: self.canonical.insert(canonical_key_of(entity), entity.id),
        }
    }

    /// The state with an entity put in place of the one with its identifier. The keys of
    /// the entity it replaces are dropped first.
    pub open spec fn inserted(self, entity: IdentityEntityModel) -> IdentityModel {
        if self.entities.contains_key(entity.id) {
            self.without_keys(self.entities[entity.id]).with_keys(entity)
        } else {
            self.with_keys(entity)
        }
    }

    /// The state after an event.
    pub open spec fn after(self, event: EventModel) -> Result<IdentityModel, ErrorModel> {
        match event.kind {
            EventKind::IdentityEntityCreated { entity } => Ok(self.inserted(entity@)),
            _ => Ok(self),
        }
    }

    /// Why a new entity is refused, if it is: its identifier is known, an alias is
    /// faulty, its canonical key is taken, or an alias is.
    pub open spec fn refusal(self, entity: IdentityEntityModel) -> Option<ErrorModel> {
        if self.entities.contains_key(entity.id) {
            Some(ErrorModel::QueryError("identity entity id already exists: "@ + entity.id))
        } else if alias_fault(entity.aliases) is Some {
            Some(ErrorModel::QueryError(alias_fault(entity.aliases)->0))
        } else if self.canonical.contains_key(canonical_key_of(entity)) {
            Some(
                ErrorModel::QueryError(
                    "duplicate canonical_key '"@ + entity.canonical_key + "' for kind '"@ + identity_entity_kind_text(
                        entity.kind,
                    ) + "' (tenant "@ + quoted(tenant_slot(entity.tenant_id)) + ") — already mapped to entity "@
                        + self.canonical[canonical_key_of(entity)],
                ),
            )
        } else if alias_clash(self.aliases, entity.tenant_id, entity.aliases) is Some {
            let key = alias_clash(self.aliases, entity.tenant_id, entity.aliases)->0;
            Some(
                ErrorModel::QueryError(
                    "duplicate alias key '"@ + key + "' — already mapped to entity "@ + self.aliases[key],
                ),
            )
        } else {
            None
        }
    }

    /// The state after a list of events, up to the first that is refused.
    pub open spec fn after_all(self, events: Seq<EventModel>) -> (IdentityModel, Result<(), ErrorModel>)
        decreases events.len(),
    {
        if events.len() == 0 {
            (self, Ok(()))
        } else {
            match self.after(events[0]) {
                Ok(next) => next.after_all(events.skip(1)),
                Err(e) => (self, Err(e)),
            }
        }
    }
}

/// Entities, with indexes for queries and for uniqueness.
pub struct IdentityStore {
    pub by_id: Table<IdentityEntity>,
    pub by_kind: Index<String>,
    pub by_tenant: Index<TenantId>,
    /// The entity that each alias key leads to.
    pub by_alias: StringHashMap<IdentityEntityId>,
    /// The entity that each canonical key leads to.
    pub by_canonical_key: StringHashMap<IdentityEntityId>,
}

impl View for IdentityStore {
    type V = IdentityModel;

    open spec fn view(&self) -> IdentityModel {
        IdentityModel {
            entities: map_views(self.by_id@),
            aliases: map_views(self.by_alias@),
            canonical: map_views(self.by_canonical_key@),
        }
    }
}

impl Default for IdentityStore {
    fn default() -> (r: Self)
        ensures
            r.inv(),
            r@ == IdentityModel::empty(),
    {
        IdentityStore::new()
    }
}

fn optional<'a>(tenant: &'a Option<TenantId>) -> (r: Option<&'a TenantId>)
    ensures
        opt_text(*tenant) == (match r {
            Some(t) => Some(t@),
            None => None,
        }),
{
    match tenant {
        Some(t) => Some(t),
        None => None,
    }
}

fn canonical_index_key(entity: &IdentityEntity) -> (r: String)
    ensures
        r@ == canonical_key_of(entity@),
{
    let mut r = tenant_text(optional(&entity.tenant_id)).to_owned();
    r.append("|");
    r.append(entity.kind.discriminant().as_str());
    r.append("|");
    r.append(entity.canonical_key.as_str());
    r
}

fn remove_alias_keys(keys: &mut StringHashMap<Id>, entity: &IdentityEntity)
    ensures
        map_views(final(keys)@) == without_aliases(map_views(old(keys)@), entity@.tenant_id, entity@.aliases),
{
    let ghost before = map_views(keys@);
    let ghost aliases = entity@.aliases;
    let mut i: usize = 0;
    assert(aliases.take(0) =~= Seq::<IdentityAliasModel>::empty());
    while i < entity.aliases.len()
        invariant
            i <= entity.aliases@.len(),
            aliases == entity@.aliases,
            map_views(keys@) == without_aliases(before, entity@.tenant_id, aliases.take(i as int)),
        decreases entity.aliases@.len() - i,
    {
        let ghost current = map_views(keys@);
        let key = entity.aliases[i].index_key(optional(&entity.tenant_id));
        keys.remove(key.as_str());
        proof {
            assert(aliases.take(i + 1).drop_last() =~= aliases.take(i as int));
            assert(aliases.take(i + 1).last() == aliases[i as int]);
            assert(map_views(keys@) =~= current.remove(key@));
        }
        i += 1;
    }
    assert(aliases.take(aliases.len() as int) =~= aliases);
}

fn insert_alias_keys(keys: &mut StringHashMap<Id>, entity: &IdentityEntity)
    ensures
        map_views(final(keys)@) == with_aliases(
            map_views(old(keys)@),
            entity@.tenant_id,
            entity@.aliases,
            entity@.id,
        ),
{
    let ghost before = map_views(keys@);
    let ghost aliases = entity@.aliases;
    let mut i: usize = 0;
    assert(aliases.take(0) =~= Seq::<IdentityAliasModel>::empty());
    while i < entity.aliases.len()
        invariant
            i <= entity.aliases@.len(),
            aliases == entity@.aliases,
            map_views(keys@) == with_aliases(before, entity@.tenant_id, aliases.take(i as int), entity@.id),
        decreases entity.aliases@.len() - i,
    {
        let ghost current = map_views(keys@);
        let key = entity.aliases[i].index_key(optional(&entity.tenant_id));
        let ghost k = key@;
        keys.insert(key, entity.id.clone());
        proof {
            assert(aliases.take(i + 1).drop_last() =~= aliases.take(i as int));
            assert(aliases.take(i + 1).last() == aliases[i as int]);
            assert(map_views(keys@) =~= current.insert(k, entity@.id));
        }
        i += 1;
    }
    assert(aliases.take(aliases.len() as int) =~= aliases);
}

proof fn with_aliases_values(
    keys: Map<Seq<char>, Seq<char>>,
    tenant: Option<Seq<char>>,
    aliases: Seq<IdentityAliasModel>,
    id: Seq<char>,
)
    ensures
        forall|k: Seq<char>| #[trigger]
            with_aliases(keys, tenant, aliases, id).contains_key(k) ==> with_aliases(keys, tenant, aliases, id)[k] == id
                || (keys.contains_key(k) && with_aliases(keys, tenant, aliases, id)[k] == keys[k]),
    decreases aliases.len(),
{
    if aliases.len() > 0 {
        with_aliases_values(keys, tenant, aliases.drop_last(), id);
        let fewer = with_aliases(keys, tenant, aliases.drop_last(), id);
        assert forall|k: Seq<char>| #[trigger] with_aliases(keys, tenant, aliases, id).contains_key(k) implies with_aliases(
            keys,
            tenant,
            aliases,
            id,
        )[k] == id || (keys.contains_key(k) && with_aliases(keys, tenant, aliases, id)[k] == keys[k]) by {
            if k != aliases.last().index_key(tenant) {
                assert(fewer.contains_key(k));
            }
        }
    }
}

proof fn without_aliases_values(
    keys: Map<Seq<char>, Seq<char>>,
    tenant: Option<Seq<char>>,
    aliases: Seq<IdentityAliasModel>,
)
    ensures
        forall|k: Seq<char>| #[trigger]
            without_aliases(keys, tenant, aliases).contains_key(k) ==> keys.contains_key(k) && without_aliases(
                keys,
                tenant,
                aliases,
            )[k] == keys[k],
    decreases aliases.len(),
{
    if aliases.len() > 0 {
        without_aliases_values(keys, tenant, aliases.drop_last());
        let fewer = without_aliases(keys, tenant, aliases.drop_last());
        assert forall|k: Seq<char>| #[trigger] without_aliases(keys, tenant, aliases).contains_key(k) implies keys.contains_key(
            k,
        ) && without_aliases(keys, tenant, aliases)[k] == keys[k] by {
            assert(fewer.contains_key(k));
        }
    }
}

impl IdentityStore {
    /// The tables are well formed, every record stands under its own identifier, and
    /// the indexes file exactly the records that have each key; alias and canonical keys lead to
    /// entities that are known.
    pub open spec fn inv(&self) -> bool {
        &&& self.by_id.wf()
        &&& self.by_kind.wf()
        &&& self.by_tenant.wf()
        &&& forall|t: Seq<char>| #[trigger] self@.entities.contains_key(t) ==> self@.entities[t].id == t
        &&& forall|k: Seq<char>, t: Seq<char>| #[trigger]
            self.by_kind.has(k, t) <==> self@.entities.contains_key(t) && identity_entity_kind_text(self@.entities[t].kind) == k
        &&& forall|k: Seq<char>, t: Seq<char>| #[trigger]
            self.by_tenant.has(k, t) <==> self@.entities.contains_key(t) && self@.entities[t].tenant_id == Some(k)
        &&& forall|k: Seq<char>| #[trigger] self@.aliases.contains_key(k) ==> self@.entities.contains_key(self@.aliases[k])
        &&& forall|k: Seq<char>| #[trigger] self@.canonical.contains_key(k) ==> self@.entities.contains_key(self@.canonical[k])
    }

    /// A store without entities.
    pub fn new() -> (r: Self)
        ensures
            r.inv(),
            r@ == IdentityModel::empty(),
    {
        let r = IdentityStore {
            by_id: Table::new(),
            by_kind: Index::new(),
            by_tenant: Index::new(),
            by_alias: StringHashMap::new(),
            by_canonical_key: StringHashMap::new(),
        };
        assert(r@.entities =~= Map::<Seq<char>, IdentityEntityModel>::empty());
        assert(r@.aliases =~= Map::<Seq<char>, Seq<char>>::empty());
        assert(r@.canonical =~= Map::<Seq<char>, Seq<char>>::empty());
        r
    }

    /// The number of entities.
    pub fn entity_count(&self) -> (r: usize)
        requires
            self.inv(),
        ensures
            r == self@.entities.len(),
    {
        assert(self@.entities.dom() =~= self.by_id@.dom());
        self.by_id.len()
    }

    /// The one of the entities with the identifier.
    pub fn entity(&self, id: &IdentityEntityId) -> (r: Option<&IdentityEntity>)
        requires
            self.inv(),
        ensures
            match r {
                Some(v) => self@.entities.contains_key(id@) && v@ == self@.entities[id@],
                None => !self@.entities.contains_key(id@),
            },
    {
        self.by_id.get(id)
    }

    /// All entities, each once, in the order in which they were first recorded.
    pub fn all_entities(&self) -> (r: Vec<&IdentityEntity>)
        requires
            self.inv(),
        ensures
            r@.len() == self.by_id.order().len(),
            self.by_id.order().no_duplicates(),
            forall|t: Seq<char>| #[trigger] self.by_id.order().contains(t) <==> self@.entities.contains_key(t),
            forall|i: int| 0 <= i < r@.len() ==> #[trigger] views(r@)[i] == self@.entities[self.by_id.order()[i]],
    {
        all_records(&self.by_id)
    }

    /// The entities of a kind, in ascending order of their identifiers. Kinds are told apart
    /// by the texts that stand for them.
    pub fn entities_with_kind(&self, kind: &IdentityEntityKind) -> (r: Vec<&IdentityEntity>)
        requires
            self.inv(),
        ensures
            lists(
                views(r@),
                self@.entities,
                Set::new(|t: Seq<char>| self@.entities.contains_key(t) && identity_entity_kind_text(self@.entities[t].kind) == identity_entity_kind_text(kind@)),
            ),
    {
        let key = kind.discriminant();
        let r = filed(&self.by_id, &self.by_kind, &key);
        assert(Set::new(|t: Seq<char>| self.by_kind.has(identity_entity_kind_text(kind@), t)) =~= Set::new(
            |t: Seq<char>| self@.entities.contains_key(t) && identity_entity_kind_text(self@.entities[t].kind) == identity_entity_kind_text(kind@),
        ));
        r
    }

    /// The entities of a tenant. Entities without a tenant are in no such list.
    pub fn entities_for_tenant(&self, tenant: &TenantId) -> (r: Vec<&IdentityEntity>)
        requires
            self.inv(),
        ensures
            lists(
                views(r@),
                self@.entities,
                Set::new(|t: Seq<char>| self@.entities.contains_key(t) && self@.entities[t].tenant_id == Some(tenant@)),
            ),
    {
        let r = filed(&self.by_id, &self.by_tenant, tenant);
        assert(Set::new(|t: Seq<char>| self.by_tenant.has(tenant@, t)) =~= Set::new(
            |t: Seq<char>| self@.entities.contains_key(t) && self@.entities[t].tenant_id == Some(tenant@),
        ));
        r
    }

    /// The entity known under a name of a source, within a tenant or without one.
    pub fn entity_by_alias(
        &self,
        tenant: Option<&TenantId>,
        source: &str,
        namespace: Option<&str>,
        normalized: &str,
    ) -> (r: Option<&IdentityEntity>)
        requires
            self.inv(),
        ensures
            ({
                let key = alias_key(
                    match tenant {
                        Some(t) => Some(t@),
                        None => None,
                    },
                    source@,
                    match namespace {
                        Some(n) => Some(n@),
                        None => None,
                    },
                    normalized@,
                );
                match r {
                    Some(entity) => self@.aliases.contains_key(key) && entity@ == self@.entities[self@.aliases[key]],
                    None => !self@.aliases.contains_key(key),
                }
            }),
    {
        let key = alias_index_key(tenant, source, namespace, normalized);
        match self.by_alias.get(key.as_str()) {
            Some(id) => {
                assert(self@.aliases.contains_key(key@));
                self.by_id.get(id)
            },
            None => None,
        }
    }

    /// Puts an entity in place of the one with its identifier, without the checks made of
    /// a new entity.
    pub fn insert_entity(&mut self, entity: IdentityEntity)
        requires
            old(self).inv(),
        ensures
            final(self).inv(),
            final(self)@ == old(self)@.inserted(entity@),
    {
        let ghost before = self@;
        let ghost stored = entity@;
        let id = entity.id.clone();
        if let Some(existing) = self.by_id.get(&id) {
            remove_from_index(&mut self.by_kind, &existing.kind.discriminant(), &id);
            if let Some(key) = &existing.tenant_id {
                remove_from_index(&mut self.by_tenant, key, &id);
            }
            remove_alias_keys(&mut self.by_alias, existing);
            let canonical = canonical_index_key(existing);
            self.by_canonical_key.remove(canonical.as_str());
            proof {
                assert(self@.canonical =~= before.without_keys(existing@).canonical);
                without_aliases_values(before.aliases, existing@.tenant_id, existing@.aliases);
            }
        }
        let ghost middle = self@;
        self.by_kind.insert(entity.kind.discriminant(), id.clone());
        if let Some(key) = &entity.tenant_id {
            self.by_tenant.insert(key.clone(), id.clone());
        }
        insert_alias_keys(&mut self.by_alias, &entity);
        let canonical = canonical_index_key(&entity);
        self.by_canonical_key.insert(canonical, id.clone());
        self.by_id.insert(id, entity);
        proof {
            assert(self@.entities =~= before.entities.insert(stored.id, stored));
            assert(self@.canonical =~= middle.canonical.insert(canonical_key_of(stored), stored.id));
            with_aliases_values(middle.aliases, stored.tenant_id, stored.aliases, stored.id);
        }
    }

    fn check_aliases(aliases: &Vec<IdentityAlias>) -> (r: Result<(), HydraError>)
        ensures
            match r {
                Ok(_) => alias_fault(alias_models(aliases@)) is None,
                Err(e) => alias_fault(alias_models(aliases@)) is Some && e@ == ErrorModel::QueryError(
                    alias_fault(alias_models(aliases@))->0,
                ),
            },
    {
        let ghost models = alias_models(aliases@);
        let mut i: usize = 0;
        assert(models.skip(0) =~= models);
        while i < aliases.len()
            invariant
                i <= aliases@.len(),
                models == alias_models(aliases@),
                alias_fault(models) == alias_fault(models.skip(i as int)),
            decreases aliases@.len() - i,
        {
            assert(models.skip(i as int)[0] == aliases@[i as int]@);
            assert(models.skip(i as int).skip(1) =~= models.skip(i + 1));
            match aliases[i].validate() {
                Ok(_) => {},
                Err(message) => {
                    return Err(HydraError::QueryError(message));
                },
            }
            i += 1;
        }
        Ok(())
    }

    fn find_clash(&self, entity: &IdentityEntity) -> (r: Option<(String, &IdentityEntityId)>)
        requires
            self.inv(),
        ensures
            match r {
                Some((key, id)) => {
                    &&& alias_clash(self@.aliases, entity@.tenant_id, entity@.aliases) == Some(key@)
                    &&& id@ == self@.aliases[key@]
                },
                None => alias_clash(self@.aliases, entity@.tenant_id, entity@.aliases) is None,
            },
    {
        let ghost models = entity@.aliases;
        let mut i: usize = 0;
        assert(models.skip(0) =~= models);
        while i < entity.aliases.len()
            invariant
                i <= entity.aliases@.len(),
                models == entity@.aliases,
                alias_clash(self@.aliases, entity@.tenant_id, models) == alias_clash(
                    self@.aliases,
                    entity@.tenant_id,
                    models.skip(i as int),
                ),
            decreases entity.aliases@.len() - i,
        {
            assert(models.skip(i as int)[0] == entity.aliases@[i as int]@);
            assert(models.skip(i as int).skip(1) =~= models.skip(i + 1));
            let key = entity.aliases[i].index_key(optional(&entity.tenant_id));
            match self.by_alias.get(key.as_str()) {
                Some(id) => {
                    assert(self@.aliases.contains_key(key@));
                    return Some((key, id));
                },
                None => {
                    assert(!self@.aliases.contains_key(key@));
                },
            }
            i += 1;
        }
        None
    }

    /// Adds a new entity. Its identifier, its canonical key within its tenant and kind,
    /// and its aliases within its tenant have to be new, and its aliases sound; an entity
    /// that is refused changes nothing.
    pub fn create_entity(&mut self, entity: IdentityEntity) -> (r: Result<IdentityEntity, HydraError>)
        requires
            old(self).inv(),
        ensures
            final(self).inv(),
            match old(self)@.refusal(entity@) {
                Some(e) => r is Err && r->Err_0@ == e && final(self)@ == old(self)@,
                None => r is Ok && r->Ok_0@ == entity@ && final(self)@ == old(self)@.inserted(entity@),
            },
    {
        if self.by_id.contains(&entity.id) {
            return Err(query_error("identity entity id already exists: ", entity.id.as_str()));
        }
        match IdentityStore::check_aliases(&entity.aliases) {
            Ok(_) => {},
            Err(e) => {
                return Err(e);
            },
        }
        let canonical = canonical_index_key(&entity);
        if let Some(existing) = self.by_canonical_key.get(canonical.as_str()) {
            assert(self@.canonical.contains_key(canonical@));
            let mut message = "duplicate canonical_key '".to_owned();
            message.append(entity.canonical_key.as_str());
            message.append("' for kind '");
            message.append(entity.kind.discriminant().as_str());
            message.append("' (tenant ");
            let tenant = quote(tenant_text(optional(&entity.tenant_id)));
            message.append(tenant.as_str());
            message.append(") — already mapped to entity ");
            message.append(existing.as_str());
            return Err(HydraError::QueryError(message));
        }
        assert(!self@.canonical.contains_key(canonical@));
        if let Some((key, existing)) = self.find_clash(&entity) {
            let mut message = "duplicate alias key '".to_owned();
            message.append(key.as_str());
            message.append("' — already mapped to entity ");
            message.append(existing.as_str());
            return Err(HydraError::QueryError(message));
        }
        let copy = entity.clone();
        self.insert_entity(entity);
        Ok(copy)
    }

    /// Applies an event. Events of other kinds are ignored.
    pub fn apply_event(&mut self, event: &Event) -> (r: Result<(), HydraError>)
        requires
            old(self).inv(),
        ensures
            final(self).inv(),
            match old(self)@.after(event@) {
                Ok(next) => r is Ok && final(self)@ == next,
                Err(e) => r is Err && r->Err_0@ == e && final(self)@ == old(self)@,
            },
    {
        if let EventKind::IdentityEntityCreated { entity } = &event.kind {
            self.insert_entity(entity.clone());
        }
        Ok(())
    }

    /// Applies events in order, up to the first that is refused.
    pub fn apply_events(&mut self, events: &Vec<Event>) -> (r: Result<(), HydraError>)
        requires
            old(self).inv(),
        ensures
            final(self).inv(),
            final(self)@ == old(self)@.after_all(event_models(events@)).0,
            same_outcome(r, old(self)@.after_all(event_models(events@)).1),
    {
        let ghost before = self@;
        let mut i: usize = 0;
        let ghost models = event_models(events@);
        assert(models.skip(0) =~= models);
        while i < events.len()
            invariant
                i <= events@.len(),
                self.inv(),
                before == old(self)@,
                models == event_models(events@),
                self@.after_all(models.skip(i as int)) == before.after_all(models),
            decreases events@.len() - i,
        {
            proof {
                assert(models.skip(i as int)[0] == events@[i as int]@);
                assert(models.skip(i as int).skip(1) =~= models.skip(i + 1));
            }
            match self.apply_event(&events[i]) {
                Ok(_) => {},
                Err(e) => {
                    return Err(e);
                },
            }
            i += 1;
        }
        Ok(())
    }
}

/// The keys lead to exactly the entities that have them: every entity is found under its
/// canonical key and under each of its aliases, and no key leads anywhere else.
pub open spec fn keys_are_faithful(store: IdentityModel) -> bool {
    &&& forall|t: Seq<char>| #[trigger] store.entities.contains_key(t) ==> store.entities[t].id == t
    &&& forall|t: Seq<char>| #[trigger]
        store.entities.contains_key(t) ==> leads_to(store.canonical, canonical_key_of(store.entities[t]), t)
    &&& forall|t: Seq<char>, i: int|
        store.entities.contains_key(t) && 0 <= i < store.entities[t].aliases.len() ==> leads_to(
            store.aliases,
            (#[trigger] store.entities[t].aliases[i]).index_key(store.entities[t].tenant_id),
            t,
        )
    &&& forall|k: Seq<char>| #[trigger]
        store.canonical.contains_key(k) ==> store.entities.contains_key(store.canonical[k]) && canonical_key_of(
            store.entities[store.canonical[k]],
        ) == k
    &&& forall|k: Seq<char>| #[trigger]
        store.aliases.contains_key(k) ==> store.entities.contains_key(store.aliases[k]) && has_alias_key(
            store.entities[store.aliases[k]],
            k,
        )
}

/// Whether the key is that of one of the entity's aliases.
pub open spec fn has_alias_key(entity: IdentityEntityModel, key: Seq<char>) -> bool {
    exists|i: int| 0 <= i < entity.aliases.len() && (#[trigger] entity.aliases[i]).index_key(entity.tenant_id) == key
}

/// Whether the key leads to the identifier.
pub open spec fn leads_to(keys: Map<Seq<char>, Seq<char>>, key: Seq<char>, id: Seq<char>) -> bool {
    keys.contains_key(key) && keys[key] == id
}

proof fn with_aliases_leads(
    keys: Map<Seq<char>, Seq<char>>,
    tenant: Option<Seq<char>>,
    aliases: Seq<IdentityAliasModel>,
    id: Seq<char>,
)
    ensures
        forall|i: int|
            0 <= i < aliases.len() ==> leads_to(
                with_aliases(keys, tenant, aliases, id),
                (#[trigger] aliases[i]).index_key(tenant),
                id,
            ),
    decreases aliases.len(),
{
    if aliases.len() > 0 {
        with_aliases_leads(keys, tenant, aliases.drop_last(), id);
        assert forall|i: int| 0 <= i < aliases.len() implies leads_to(
            with_aliases(keys, tenant, aliases, id),
            (#[trigger] aliases[i]).index_key(tenant),
            id,
        ) by {
            if i < aliases.len() - 1 {
                assert(aliases.drop_last()[i] == aliases[i]);
            }
        }
    }
}

proof fn alias_keys_come_from_somewhere(
    keys: Map<Seq<char>, Seq<char>>,
    tenant: Option<Seq<char>>,
    aliases: Seq<IdentityAliasModel>,
    id: Seq<char>,
    k: Seq<char>,
)
    requires
        with_aliases(keys, tenant, aliases, id).contains_key(k),
    ensures
        ({
            let found = with_aliases(keys, tenant, aliases, id)[k];
            ||| found == id && exists|i: int| 0 <= i < aliases.len() && (#[trigger] aliases[i]).index_key(tenant) == k
            ||| keys.contains_key(k) && found == keys[k]
        }),
    decreases aliases.len(),
{
    if aliases.len() > 0 {
        let shorter = aliases.drop_last();
        if k == aliases.last().index_key(tenant) {
            assert(aliases[aliases.len() - 1].index_key(tenant) == k);
        } else {
            alias_keys_come_from_somewhere(keys, tenant, shorter, id, k);
            if exists|i: int| 0 <= i < shorter.len() && (#[trigger] shorter[i]).index_key(tenant) == k {
                let i = choose|i: int| 0 <= i < shorter.len() && (#[trigger] shorter[i]).index_key(tenant) == k;
                assert(aliases[i] == shorter[i]);
            }
        }
    }
}

proof fn unclashed_keys_stay(
    keys: Map<Seq<char>, Seq<char>>,
    tenant: Option<Seq<char>>,
    aliases: Seq<IdentityAliasModel>,
    id: Seq<char>,
    k: Seq<char>,
)
    requires
        keys.contains_key(k),
        forall|i: int| 0 <= i < aliases.len() ==> (#[trigger] aliases[i]).index_key(tenant) != k,
    ensures
        leads_to(with_aliases(keys, tenant, aliases, id), k, keys[k]),
    decreases aliases.len(),
{
    if aliases.len() > 0 {
        let shorter = aliases.drop_last();
        assert forall|i: int| 0 <= i < shorter.len() implies (#[trigger] shorter[i]).index_key(tenant) != k by {
            assert(shorter[i] == aliases[i]);
        }
        unclashed_keys_stay(keys, tenant, shorter, id, k);
        assert(aliases.last() == aliases[aliases.len() - 1]);
    }
}

proof fn no_clash_means_all_free(
    keys: Map<Seq<char>, Seq<char>>,
    tenant: Option<Seq<char>>,
    aliases: Seq<IdentityAliasModel>,
)
    requires
        alias_clash(keys, tenant, aliases) is None,
    ensures
        forall|i: int| 0 <= i < aliases.len() ==> !keys.contains_key((#[trigger] aliases[i]).index_key(tenant)),
    decreases aliases.len(),
{
    if aliases.len() > 0 {
        no_clash_means_all_free(keys, tenant, aliases.skip(1));
        assert forall|i: int| 0 <= i < aliases.len() implies !keys.contains_key(
            (#[trigger] aliases[i]).index_key(tenant),
        ) by {
            if i > 0 {
                assert(aliases.skip(1)[i - 1] == aliases[i]);
            }
        }
    }
}

/// Creating entities keeps the keys faithful. So two entities never share a canonical key
/// or an alias within a tenant, and a new entity is found under each of its aliases.
pub proof fn law_created_entities_keep_keys_unique(store: IdentityModel, entity: IdentityEntityModel)
    requires
        keys_are_faithful(store),
        store.refusal(entity) is None,
    ensures
        keys_are_faithful(store.inserted(entity)),
        forall|a: Seq<char>, b: Seq<char>|
            #![trigger store.inserted(entity).entities[a], store.inserted(entity).entities[b]]
            store.inserted(entity).entities.contains_key(a) && store.inserted(entity).entities.contains_key(b) && a != b
                ==> canonical_key_of(store.inserted(entity).entities[a]) != canonical_key_of(
                store.inserted(entity).entities[b],
            ),
{
    let next = store.inserted(entity);
    let tenant = entity.tenant_id;
    with_aliases_leads(store.aliases, tenant, entity.aliases, entity.id);
    no_clash_means_all_free(store.aliases, tenant, entity.aliases);
    assert forall|t: Seq<char>, i: int| next.entities.contains_key(t) && 0 <= i < next.entities[t].aliases.len() implies leads_to(
        next.aliases,
        (#[trigger] next.entities[t].aliases[i]).index_key(next.entities[t].tenant_id),
        t,
    ) by {
        if t != entity.id {
            let k = store.entities[t].aliases[i].index_key(store.entities[t].tenant_id);
            assert(leads_to(store.aliases, k, t));
            assert forall|j: int| 0 <= j < entity.aliases.len() implies (#[trigger] entity.aliases[j]).index_key(tenant)
                != k by {
            }
            unclashed_keys_stay(store.aliases, tenant, entity.aliases, entity.id, k);
        }
    }
    assert forall|t: Seq<char>| #[trigger] next.entities.contains_key(t) implies leads_to(
        next.canonical,
        canonical_key_of(next.entities[t]),
        t,
    ) by {
        if t != entity.id {
            assert(leads_to(store.canonical, canonical_key_of(store.entities[t]), t));
        }
    }
    assert forall|k: Seq<char>| #[trigger] next.canonical.contains_key(k) implies next.entities.contains_key(
        next.canonical[k],
    ) && canonical_key_of(next.entities[next.canonical[k]]) == k by {
        if k != canonical_key_of(entity) {
            assert(store.canonical.contains_key(k));
        }
    }
    assert forall|k: Seq<char>| #[trigger] next.aliases.contains_key(k) implies next.entities.contains_key(
        next.aliases[k],
    ) && has_alias_key(next.entities[next.aliases[k]], k) by {
        alias_keys_come_from_somewhere(store.aliases, tenant, entity.aliases, entity.id, k);
        if exists|i: int| 0 <= i < entity.aliases.len() && (#[trigger] entity.aliases[i]).index_key(tenant) == k {
            let i = choose|i: int| 0 <= i < entity.aliases.len() && (#[trigger] entity.aliases[i]).index_key(tenant) == k;
            assert(leads_to(next.aliases, entity.aliases[i].index_key(tenant), entity.id));
            assert(next.entities[entity.id].aliases[i].index_key(tenant) == k);
        } else {
            assert(store.aliases.contains_key(k));
            let t = store.aliases[k];
            assert(has_alias_key(store.entities[t], k));
        }
    }
    assert forall|a: Seq<char>, b: Seq<char>|
        #![trigger next.entities[a], next.entities[b]]
        next.entities.contains_key(a) && next.entities.contains_key(b) && a != b implies canonical_key_of(
        next.entities[a],
    ) != canonical_key_of(next.entities[b]) by {
        assert(leads_to(next.canonical, canonical_key_of(next.entities[a]), a));
        assert(leads_to(next.canonical, canonical_key_of(next.entities[b]), b));
    }
}

/// No bar stands in the text.
pub open spec fn without_bar(text: Seq<char>) -> bool {
    forall|i: int| 0 <= i < text.len() ==> #[trigger] text[i] != '|'
}

/// Within one tenant a name never leads to what another tenant recorded: the keys of two
/// tenants differ, as long as the texts for the tenants hold no bar. The key for no
/// tenant counts as that of a tenant of its own.
pub proof fn law_tenants_are_isolated(
    one: Option<Seq<char>>,
    other: Option<Seq<char>>,
    first: IdentityAliasModel,
    second: IdentityAliasModel,
)
    requires
        without_bar(tenant_slot(one)),
        without_bar(tenant_slot(other)),
        tenant_slot(one) != tenant_slot(other),
    ensures
        first.index_key(one) != second.index_key(other),
{
    reveal_strlit("|");
    let a = tenant_slot(one);
    let b = tenant_slot(other);
    let x = first.index_key(one);
    let y = second.index_key(other);
    assert(x[a.len() as int] == '|');
    assert(y[b.len() as int] == '|');
    assert forall|i: int| 0 <= i < a.len() implies x[i] == a[i] by {
    }
    assert forall|i: int| 0 <= i < b.len() implies y[i] == b[i] by {
    }
    if x == y {
        if a.len() < b.len() {
            assert(b[a.len() as int] == '|');
        } else if b.len() < a.len() {
            assert(a[b.len() as int] == '|');
        } else {
            assert(a =~= b);
        }
    }
}

} // verus!
