//! The store of causal cells, derived from events.

use crate::causal_cell::{causal_cell_kind_text, CausalCell, CausalCellKind, CausalCellModel};
use crate::error::{same_outcome, ErrorModel, HydraError};
use crate::event::{event_models, Event, EventKind, EventModel};
use crate::ids::{CausalCellId, TenantId};
use crate::index::{remove_from_index, Index};
use crate::table::{all_records, filed, lists, map_views, views, Table};
use vstd::prelude::*;

verus! {

/// What the store stands for: causal cells by identifier.
pub struct CausalCellStoreModel {
    pub cells_by_id: Map<Seq<char>, CausalCellModel>,
}

/// Causal cells, with indexes for queries.
pub struct CausalCellStore {
    pub cells_by_id: Table<CausalCell>,
    pub cells_by_kind: Index<String>,
    pub cells_by_tenant: Index<TenantId>,
}

impl View for CausalCellStore {
    type V = CausalCellStoreModel;

    open spec fn view(&self) -> CausalCellStoreModel {
        CausalCellStoreModel { cells_by_id: map_views(self.cells_by_id@) }
    }
}

impl Default for CausalCellStore {
    fn default() -> (r: Self)
        ensures
            r.inv(),
            r@ == CausalCellStoreModel::empty(),
    {
        CausalCellStore::new()
    }
}

impl CausalCellStoreModel {
    /// Nothing recorded.
    pub open spec fn empty() -> CausalCellStoreModel {
        CausalCellStoreModel { cells_by_id: Map::empty() }
    }

    /// The state after an event.
    pub open spec fn after(self, event: EventModel) -> Result<CausalCellStoreModel, ErrorModel> {
        match event.kind {
            EventKind::CausalCellCreated { cell } => Ok(
                CausalCellStoreModel { cells_by_id: self.cells_by_id.insert(cell@.id, cell@) },
            ),
            _ => Ok(self),
        }
    }

    /// The state after a list of events, up to the first that is refused.
    pub open spec fn after_all(self, events: Seq<EventModel>) -> (CausalCellStoreModel, Result<(), ErrorModel>)
        decreases events.len(),
    {
        if events.len() == 0 {
            (self, Ok(()))
        } else {
            match self.after(events[0]) {
                Ok(next) => next.after_all(events.skip(1)),
                Err(e) => (self, Err(e)),
            }
        }
    }
}

impl CausalCellStore {
    /// The tables are well formed, every record stands under its own identifier, and
    /// the indexes file exactly the records that have each key.
    pub open spec fn inv(&self) -> bool {
        &&& self.cells_by_id.wf()
        &&& self.cells_by_kind.wf()
        &&& self.cells_by_tenant.wf()
        &&& forall|t: Seq<char>| #[trigger] self@.cells_by_id.contains_key(t) ==> self@.cells_by_id[t].id == t
        &&& forall|k: Seq<char>, t: Seq<char>| #[trigger]
            self.cells_by_kind.has(k, t) <==> self@.cells_by_id.contains_key(t) && causal_cell_kind_text(self@.cells_by_id[t].kind) == k
        &&& forall|k: Seq<char>, t: Seq<char>| #[trigger]
            self.cells_by_tenant.has(k, t) <==> self@.cells_by_id.contains_key(t) && self@.cells_by_id[t].tenant_id == Some(k)
    }

    /// A store without records.
    pub fn new() -> (r: Self)
        ensures
            r.inv(),
            r@ == CausalCellStoreModel::empty(),
    {
        let r = CausalCellStore {
            cells_by_id: Table::new(),
            cells_by_kind: Index::new(),
            cells_by_tenant: Index::new(),
        };
        assert(r@.cells_by_id =~= Map::<Seq<char>, CausalCellModel>::empty());
        r
    }

    /// The number of cells.
    pub fn cell_count(&self) -> (r: usize)
        requires
            self.inv(),
        ensures
            r == self@.cells_by_id.len(),
    {
        assert(self@.cells_by_id.dom() =~= self.cells_by_id@.dom());
        self.cells_by_id.len()
    }

    /// The one of the cells with the identifier.
    pub fn cell(&self, id: &CausalCellId) -> (r: Option<&CausalCell>)
        requires
            self.inv(),
        ensures
            match r {
                Some(v) => self@.cells_by_id.contains_key(id@) && v@ == self@.cells_by_id[id@],
                None => !self@.cells_by_id.contains_key(id@),
            },
    {
        self.cells_by_id.get(id)
    }

    /// All cells, each once, in the order in which they were first recorded.
    pub fn all_cells(&self) -> (r: Vec<&CausalCell>)
        requires
            self.inv(),
        ensures
            r@.len() == self.cells_by_id.order().len(),
            self.cells_by_id.order().no_duplicates(),
            forall|t: Seq<char>| #[trigger] self.cells_by_id.order().contains(t) <==> self@.cells_by_id.contains_key(t),
            forall|i: int| 0 <= i < r@.len() ==> #[trigger] views(r@)[i] == self@.cells_by_id[self.cells_by_id.order()[i]],
    {
        all_records(&self.cells_by_id)
    }

    /// The cells of a kind, in ascending order of their identifiers. Kinds are told apart by
    /// the texts that stand for them.
    pub fn cells_with_kind(&self, kind: &CausalCellKind) -> (r: Vec<&CausalCell>)
        requires
            self.inv(),
        ensures
            lists(
                views(r@),
                self@.cells_by_id,
                Set::new(|t: Seq<char>| self@.cells_by_id.contains_key(t) && causal_cell_kind_text(self@.cells_by_id[t].kind) == causal_cell_kind_text(kind@)),
            ),
    {
        let key = kind.discriminant();
        let r = filed(&self.cells_by_id, &self.cells_by_kind, &key);
        assert(Set::new(|t: Seq<char>| self.cells_by_kind.has(causal_cell_kind_text(kind@), t)) =~= Set::new(
            |t: Seq<char>| self@.cells_by_id.contains_key(t) && causal_cell_kind_text(self@.cells_by_id[t].kind) == causal_cell_kind_text(kind@),
        ));
        r
    }

    /// The cells of a tenant. Cells without a tenant are in no such list.
    pub fn cells_for_tenant(&self, tenant: &TenantId) -> (r: Vec<&CausalCell>)
        requires
            self.inv(),
        ensures
            lists(
                views(r@),
                self@.cells_by_id,
                Set::new(|t: Seq<char>| self@.cells_by_id.contains_key(t) && self@.cells_by_id[t].tenant_id == Some(tenant@)),
            ),
    {
        let r = filed(&self.cells_by_id, &self.cells_by_tenant, tenant);
        assert(Set::new(|t: Seq<char>| self.cells_by_tenant.has(tenant@, t)) =~= Set::new(
            |t: Seq<char>| self@.cells_by_id.contains_key(t) && self@.cells_by_id[t].tenant_id == Some(tenant@),
        ));
        r
    }

    /// Puts a cell in place of the one with its identifier.
    pub fn insert_cell(&mut self, cell: CausalCell)
        requires
            old(self).inv(),
        ensures
            final(self).inv(),
            final(self)@ == (CausalCellStoreModel { cells_by_id: old(self)@.cells_by_id.insert(cell@.id, cell@), ..old(self)@ }),
    {
        let ghost before = self@;
        let ghost stored = cell@;
        let id = cell.id.clone();
        if let Some(existing) = self.cells_by_id.get(&id) {
            remove_from_index(&mut self.cells_by_kind, &existing.kind.discriminant(), &id);
            if let Some(key) = &existing.tenant_id {
                remove_from_index(&mut self.cells_by_tenant, key, &id);
            }
        }
        self.cells_by_kind.insert(cell.kind.discriminant(), id.clone());
        if let Some(key) = &cell.tenant_id {
            self.cells_by_tenant.insert(key.clone(), id.clone());
        }
        self.cells_by_id.insert(id, cell);
        assert(self@.cells_by_id =~= before.cells_by_id.insert(stored.id, stored));
    }

    /// Applies an event. Events of other kinds are ignored.
    pub fn apply_event(&mut self, event: &Event) -> (r: Result<(), HydraError>)
        requires
            old(self).inv(),
        ensures
            final(self).inv(),
            match old(self)@.after(event@) {
                Ok(next) => r is Ok && final(self)@ == next,
                Err(e) => r is Err && r->Err_0@ == e && final(self)@ == old(self)@,
            },
    {
        if let EventKind::CausalCellCreated { cell } = &event.kind {
            self.insert_cell(cell.clone());
        }
        Ok(())
    }

    /// Applies events in order, up to the first that is refused.
    pub fn apply_events(&mut self, events: &Vec<Event>) -> (r: Result<(), HydraError>)
        requires
            old(self).inv(),
        ensures
            final(self).inv(),
            final(self)@ == old(self)@.after_all(event_models(events@)).0,
            same_outcome(r, old(self)@.after_all(event_models(events@)).1),
    {
        let ghost before = self@;
        let mut i: usize = 0;
        let ghost models = event_models(events@);
        assert(models.skip(0) =~= models);
        while i < events.len()
            invariant
                i <= events@.len(),
                self.inv(),
                before == old(self)@,
                models == event_models(events@),
                self@.after_all(models.skip(i as int)) == before.after_all(models),
            decreases events@.len() - i,
        {
            proof {
                assert(models.skip(i as int)[0] == events@[i as int]@);
                assert(models.skip(i as int).skip(1) =~= models.skip(i + 1));
            }
            match self.apply_event(&events[i]) {
                Ok(_) => {},
                Err(e) => {
                    return Err(e);
                },
            }
            i += 1;
        }
        Ok(())
    }
}

/// Inserting a cell again changes nothing.
pub proof fn law_insertion_is_idempotent(store: CausalCellStoreModel, event: EventModel)
    ensures
        store.after(event) is Ok,
        store.after(event)->Ok_0.after(event) == store.after(event),
{
    if let EventKind::CausalCellCreated { cell } = event.kind {
        let next = store.after(event)->Ok_0;
        assert(next.cells_by_id.insert(cell@.id, cell@) =~= next.cells_by_id);
    }
}

} // verus!
