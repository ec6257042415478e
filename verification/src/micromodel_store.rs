//! The registry of small models, derived from events.

use crate::error::{same_outcome, ErrorModel, HydraError};
use crate::event::{event_models, Event, EventKind, EventModel};
use crate::ids::{MicroModelId, MicroModelRunId};
use crate::index::{remove_from_index, Index};
use crate::micromodel::{MicroModelDefinition, MicroModelDefinitionModel, MicroModelKind, MicroModelKindModel, MicroModelObservation, MicroModelObservationModel, MicroModelPrediction, MicroModelPredictionModel, MicroModelStatus};
use crate::table::{all_records, filed, lists, map_views, views, Table};
use vstd::prelude::*;

verus! {

/// What the store stands for: models by identifier, predictions and observations by run.
pub struct MicroModelStoreModel {
    pub models: Map<Seq<char>, MicroModelDefinitionModel>,
    pub predictions: Map<Seq<char>, MicroModelPredictionModel>,
    pub observations: Map<Seq<char>, MicroModelObservationModel>,
}

/// Small models, predictions and observations, with indexes for queries.
pub struct MicroModelStore {
    pub models: Table<MicroModelDefinition>,
    pub models_by_kind: Index<MicroModelKind>,
    pub models_by_status: Index<MicroModelStatus>,
    pub predictions: Table<MicroModelPrediction>,
    pub observations: Table<MicroModelObservation>,
}

impl View for MicroModelStore {
    type V = MicroModelStoreModel;

    open spec fn view(&self) -> MicroModelStoreModel {
        MicroModelStoreModel { models: map_views(self.models@), predictions: map_views(self.predictions@), observations: map_views(self.observations@) }
    }
}

impl Default for MicroModelStore {
    fn default() -> (r: Self)
        ensures
            r.inv(),
            r@ == MicroModelStoreModel::empty(),
    {
        MicroModelStore::new()
    }
}

impl MicroModelStoreModel {
    /// Nothing recorded.
    pub open spec fn empty() -> MicroModelStoreModel {
        MicroModelStoreModel { models: Map::empty(), predictions: Map::empty(), observations: Map::empty() }
    }

    /// The state with a new status for a model; unchanged where the model is unknown.
    pub open spec fn with_status(self, model_id: Seq<char>, status: MicroModelStatus) -> MicroModelStoreModel {
        if self.models.contains_key(model_id) {
            MicroModelStoreModel {
                models: self.models.insert(
                    model_id,
                    MicroModelDefinitionModel { status, ..self.models[model_id] },
                ),
                ..self
            }
        } else {
            self
        }
    }

    /// The state after an event.
    pub open spec fn after(self, event: EventModel) -> Result<MicroModelStoreModel, ErrorModel> {
        match event.kind {
            EventKind::MicroModelRegistered { model } => Ok(
                MicroModelStoreModel { models: self.models.insert(model@.id, model@), ..self },
            ),
            EventKind::MicroModelStatusChanged { model_id, status, .. } => Ok(self.with_status(model_id@, status)),
            EventKind::MicroModelPredictionRecorded { prediction } => Ok(
                MicroModelStoreModel {
                    predictions: self.predictions.insert(prediction@.run_id, prediction@),
                    ..self
                },
            ),
            EventKind::MicroModelObservationRecorded { observation } => Ok(
                MicroModelStoreModel {
                    observations: self.observations.insert(observation@.run_id, observation@),
                    ..self
                },
            ),
            _ => Ok(self),
        }
    }

    /// The state after a list of events, up to the first that is refused.
    pub open spec fn after_all(self, events: Seq<EventModel>) -> (MicroModelStoreModel, Result<(), ErrorModel>)
        decreases events.len(),
    {
        if events.len() == 0 {
            (self, Ok(()))
        } else {
            match self.after(events[0]) {
                Ok(next) => next.after_all(events.skip(1)),
                Err(e) => (self, Err(e)),
            }
        }
    }
}

impl MicroModelStore {
    /// The tables are well formed, every record stands under its own identifier, and
    /// the indexes file exactly the records that have each key.
    pub open spec fn inv(&self) -> bool {
        &&& self.models.wf()
        &&& self.models_by_kind.wf()
        &&& self.models_by_status.wf()
        &&& self.predictions.wf()
        &&& self.observations.wf()
        &&& forall|t: Seq<char>| #[trigger] self@.models.contains_key(t) ==> self@.models[t].id == t
        &&& forall|k: MicroModelKindModel, t: Seq<char>| #[trigger]
            self.models_by_kind.has(k, t) <==> self@.models.contains_key(t) && self@.models[t].kind == k
        &&& forall|k: MicroModelStatus, t: Seq<char>| #[trigger]
            self.models_by_status.has(k, t) <==> self@.models.contains_key(t) && self@.models[t].status == k
        &&& forall|t: Seq<char>| #[trigger] self@.predictions.contains_key(t) ==> self@.predictions[t].run_id == t
        &&& forall|t: Seq<char>| #[trigger] self@.observations.contains_key(t) ==> self@.observations[t].run_id == t
    }

    /// A store without records.
    pub fn new() -> (r: Self)
        ensures
            r.inv(),
            r@ == MicroModelStoreModel::empty(),
    {
        let r = MicroModelStore {
            models: Table::new(),
            models_by_kind: Index::new(),
            models_by_status: Index::new(),
            predictions: Table::new(),
            observations: Table::new(),
        };
        assert(r@.models =~= Map::<Seq<char>, MicroModelDefinitionModel>::empty());
        assert(r@.predictions =~= Map::<Seq<char>, MicroModelPredictionModel>::empty());
        assert(r@.observations =~= Map::<Seq<char>, MicroModelObservationModel>::empty());
        r
    }

    /// The number of models.
    pub fn model_count(&self) -> (r: usize)
        requires
            self.inv(),
        ensures
            r == self@.models.len(),
    {
        assert(self@.models.dom() =~= self.models@.dom());
        self.models.len()
    }

    /// The one of the models with the identifier.
    pub fn model(&self, id: &MicroModelId) -> (r: Option<&MicroModelDefinition>)
        requires
            self.inv(),
        ensures
            match r {
                Some(v) => self@.models.contains_key(id@) && v@ == self@.models[id@],
                None => !self@.models.contains_key(id@),
            },
    {
        self.models.get(id)
    }

    /// All models, each once, in the order in which they were first recorded.
    pub fn all_models(&self) -> (r: Vec<&MicroModelDefinition>)
        requires
            self.inv(),
        ensures
            r@.len() == self.models.order().len(),
            self.models.order().no_duplicates(),
            forall|t: Seq<char>| #[trigger] self.models.order().contains(t) <==> self@.models.contains_key(t),
            forall|i: int| 0 <= i < r@.len() ==> #[trigger] views(r@)[i] == self@.models[self.models.order()[i]],
    {
        all_records(&self.models)
    }

    /// The number of predictions.
    pub fn prediction_count(&self) -> (r: usize)
        requires
            self.inv(),
        ensures
            r == self@.predictions.len(),
    {
        assert(self@.predictions.dom() =~= self.predictions@.dom());
        self.predictions.len()
    }

    /// The one of the predictions with the identifier.
    pub fn prediction(&self, id: &MicroModelRunId) -> (r: Option<&MicroModelPrediction>)
        requires
            self.inv(),
        ensures
            match r {
                Some(v) => self@.predictions.contains_key(id@) && v@ == self@.predictions[id@],
                None => !self@.predictions.contains_key(id@),
            },
    {
        self.predictions.get(id)
    }

    /// All predictions, each once, in the order in which they were first recorded.
    pub fn all_predictions(&self) -> (r: Vec<&MicroModelPrediction>)
        requires
            self.inv(),
        ensures
            r@.len() == self.predictions.order().len(),
            self.predictions.order().no_duplicates(),
            forall|t: Seq<char>| #[trigger] self.predictions.order().contains(t) <==> self@.predictions.contains_key(t),
            forall|i: int| 0 <= i < r@.len() ==> #[trigger] views(r@)[i] == self@.predictions[self.predictions.order()[i]],
    {
        all_records(&self.predictions)
    }

    /// The number of observations.
    pub fn observation_count(&self) -> (r: usize)
        requires
            self.inv(),
        ensures
            r == self@.observations.len(),
    {
        assert(self@.observations.dom() =~= self.observations@.dom());
        self.observations.len()
    }

    /// The one of the observations with the identifier.
    pub fn observation(&self, id: &MicroModelRunId) -> (r: Option<&MicroModelObservation>)
        requires
            self.inv(),
        ensures
            match r {
                Some(v) => self@.observations.contains_key(id@) && v@ == self@.observations[id@],
                None => !self@.observations.contains_key(id@),
            },
    {
        self.observations.get(id)
    }

    /// All observations, each once, in the order in which they were first recorded.
    pub fn all_observations(&self) -> (r: Vec<&MicroModelObservation>)
        requires
            self.inv(),
        ensures
            r@.len() == self.observations.order().len(),
            self.observations.order().no_duplicates(),
            forall|t: Seq<char>| #[trigger] self.observations.order().contains(t) <==> self@.observations.contains_key(t),
            forall|i: int| 0 <= i < r@.len() ==> #[trigger] views(r@)[i] == self@.observations[self.observations.order()[i]],
    {
        all_records(&self.observations)
    }

    /// The models of a kind, in ascending order of their identifiers.
    pub fn models_by_kind(&self, kind: &MicroModelKind) -> (r: Vec<&MicroModelDefinition>)
        requires
            self.inv(),
        ensures
            lists(
                views(r@),
                self@.models,
                Set::new(|t: Seq<char>| self@.models.contains_key(t) && self@.models[t].kind == kind@),
            ),
    {
        let r = filed(&self.models, &self.models_by_kind, kind);
        assert(Set::new(|t: Seq<char>| self.models_by_kind.has(kind@, t)) =~= Set::new(
            |t: Seq<char>| self@.models.contains_key(t) && self@.models[t].kind == kind@,
        ));
        r
    }

    /// The models with a status, in ascending order of their identifiers.
    pub fn models_by_status(&self, status: &MicroModelStatus) -> (r: Vec<&MicroModelDefinition>)
        requires
            self.inv(),
        ensures
            lists(
                views(r@),
                self@.models,
                Set::new(|t: Seq<char>| self@.models.contains_key(t) && self@.models[t].status == *status),
            ),
    {
        let r = filed(&self.models, &self.models_by_status, status);
        assert(Set::new(|t: Seq<char>| self.models_by_status.has(*status, t)) =~= Set::new(
            |t: Seq<char>| self@.models.contains_key(t) && self@.models[t].status == *status,
        ));
        r
    }

    fn insert_model(&mut self, model: MicroModelDefinition)
        requires
            old(self).inv(),
        ensures
            final(self).inv(),
            final(self)@ == (MicroModelStoreModel { models: old(self)@.models.insert(model@.id, model@), ..old(self)@ }),
    {
        let ghost before = self@;
        let ghost stored = model@;
        let id = model.id.clone();
        if let Some(existing) = self.models.get(&id) {
            remove_from_index(&mut self.models_by_kind, &existing.kind, &id);
            remove_from_index(&mut self.models_by_status, &existing.status, &id);
        }
        self.models_by_kind.insert(model.kind.clone(), id.clone());
        self.models_by_status.insert(model.status, id.clone());
        self.models.insert(id, model);
        assert(self@.models =~= before.models.insert(stored.id, stored));
    }

    fn insert_prediction(&mut self, prediction: MicroModelPrediction)
        requires
            old(self).inv(),
        ensures
            final(self).inv(),
            final(self)@ == (MicroModelStoreModel { predictions: old(self)@.predictions.insert(prediction@.run_id, prediction@), ..old(self)@ }),
    {
        let ghost before = self@;
        let ghost stored = prediction@;
        let id = prediction.run_id.clone();
        self.predictions.insert(id, prediction);
        assert(self@.predictions =~= before.predictions.insert(stored.run_id, stored));
    }

    fn insert_observation(&mut self, observation: MicroModelObservation)
        requires
            old(self).inv(),
        ensures
            final(self).inv(),
            final(self)@ == (MicroModelStoreModel { observations: old(self)@.observations.insert(observation@.run_id, observation@), ..old(self)@ }),
    {
        let ghost before = self@;
        let ghost stored = observation@;
        let id = observation.run_id.clone();
        self.observations.insert(id, observation);
        assert(self@.observations =~= before.observations.insert(stored.run_id, stored));
    }

    fn update_status(&mut self, model_id: &MicroModelId, status: MicroModelStatus)
        requires
            old(self).inv(),
        ensures
            final(self).inv(),
            final(self)@ == old(self)@.with_status(model_id@, status),
    {
        if let Some(existing) = self.models.get(model_id) {
            let mut model = existing.clone();
            model.status = status;
            self.insert_model(model);
        }
    }

    /// Applies an event. Events of other kinds are ignored.
    pub fn apply_event(&mut self, event: &Event) -> (r: Result<(), HydraError>)
        requires
            old(self).inv(),
        ensures
            final(self).inv(),
            match old(self)@.after(event@) {
                Ok(next) => r is Ok && final(self)@ == next,
                Err(e) => r is Err && r->Err_0@ == e && final(self)@ == old(self)@,
            },
    {
        match &event.kind {
            EventKind::MicroModelRegistered { model } => {
                self.insert_model(model.clone());
            },
            EventKind::MicroModelStatusChanged { model_id, status, .. } => {
                self.update_status(model_id, *status);
            },
            EventKind::MicroModelPredictionRecorded { prediction } => {
                self.insert_prediction(prediction.clone());
            },
            EventKind::MicroModelObservationRecorded { observation } => {
                self.insert_observation(observation.clone());
            },
            _ => {},
        }
        Ok(())
    }

    /// Applies events in order, up to the first that is refused.
    pub fn apply_events(&mut self, events: &Vec<Event>) -> (r: Result<(), HydraError>)
        requires
            old(self).inv(),
        ensures
            final(self).inv(),
            final(self)@ == old(self)@.after_all(event_models(events@)).0,
            same_outcome(r, old(self)@.after_all(event_models(events@)).1),
    {
        let ghost before = self@;
        let mut i: usize = 0;
        let ghost models = event_models(events@);
        assert(models.skip(0) =~= models);
        while i < events.len()
            invariant
                i <= events@.len(),
                self.inv(),
                before == old(self)@,
                models == event_models(events@),
                self@.after_all(models.skip(i as int)) == before.after_all(models),
            decreases events@.len() - i,
        {
            proof {
                assert(models.skip(i as int)[0] == events@[i as int]@);
                assert(models.skip(i as int).skip(1) =~= models.skip(i + 1));
            }
            match self.apply_event(&events[i]) {
                Ok(_) => {},
                Err(e) => {
                    return Err(e);
                },
            }
            i += 1;
        }
        Ok(())
    }
}

/// A status change touches the status of that model alone.
pub proof fn law_status_changes_are_local(store: MicroModelStoreModel, model_id: Seq<char>, status: MicroModelStatus)
    ensures
        store.with_status(model_id, status).models.dom() == store.models.dom(),
        store.models.contains_key(model_id) ==> store.with_status(model_id, status).models[model_id].status == status,
        forall|t: Seq<char>| #[trigger]
            store.models.contains_key(t) && t != model_id ==> store.with_status(model_id, status).models[t]
                == store.models[t],
        store.with_status(model_id, status).predictions == store.predictions,
        store.with_status(model_id, status).observations == store.observations,
{
    assert(store.with_status(model_id, status).models.dom() =~= store.models.dom());
}

} // verus!
