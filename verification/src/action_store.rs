//! The store of actions and outcomes, derived from events.

use crate::action::{action_target_models, Action, ActionModel, ActionStatus, ActionTarget, ActionTargetModel, Outcome, OutcomeModel};
use crate::error::{query_error, same_outcome, ErrorModel, HydraError};
use crate::event::{event_models, Event, EventKind, EventModel};
use crate::ids::{texts, ActionId, ClaimId, EdgeId, EvidenceId, NodeId, OutcomeId};
use crate::index::{insert_under_all, key_views, remove_from_index, remove_under_all, Index, Key};
use crate::table::{all_records, filed, lists, map_views, views, Table};
use crate::time::Timestamp;
use vstd::prelude::*;
use vstd::std_specs::convert::FromSpecImpl;

verus! {

/// A key for finding actions by their target.
#[derive(Debug, PartialEq)]
pub enum ActionTargetKey {
    Node(NodeId),
    Edge(EdgeId),
    Claim(ClaimId),
    Evidence(EvidenceId),
    ExternalRef(String),
    Dataset(String),
    System(String),
}

impl View for ActionTargetKey {
    type V = ActionTargetModel;

    open spec fn view(&self) -> ActionTargetModel {
        match *self {
            ActionTargetKey::Node(x) => ActionTargetModel::Node(x@),
            ActionTargetKey::Edge(x) => ActionTargetModel::Edge(x@),
            ActionTargetKey::Claim(x) => ActionTargetModel::Claim(x@),
            ActionTargetKey::Evidence(x) => ActionTargetModel::Evidence(x@),
            ActionTargetKey::ExternalRef(x) => ActionTargetModel::ExternalRef(x@),
            ActionTargetKey::Dataset(x) => ActionTargetModel::Dataset(x@),
            ActionTargetKey::System(x) => ActionTargetModel::System(x@),
        }
    }
}

impl Clone for ActionTargetKey {
    fn clone(&self) -> (r: Self)
        ensures
            r@ == self@,
    {
        match self {
            ActionTargetKey::Node(x) => ActionTargetKey::Node(x.clone()),
            ActionTargetKey::Edge(x) => ActionTargetKey::Edge(x.clone()),
            ActionTargetKey::Claim(x) => ActionTargetKey::Claim(x.clone()),
            ActionTargetKey::Evidence(x) => ActionTargetKey::Evidence(x.clone()),
            ActionTargetKey::ExternalRef(x) => ActionTargetKey::ExternalRef(x.clone()),
            ActionTargetKey::Dataset(x) => ActionTargetKey::Dataset(x.clone()),
            ActionTargetKey::System(x) => ActionTargetKey::System(x.clone()),
        }
    }
}

impl Key for ActionTargetKey {
    fn same(&self, other: &Self) -> (r: bool) {
        match (self, other) {
            (ActionTargetKey::Node(x), ActionTargetKey::Node(y)) => x.text == y.text,
            (ActionTargetKey::Edge(x), ActionTargetKey::Edge(y)) => x.text == y.text,
            (ActionTargetKey::Claim(x), ActionTargetKey::Claim(y)) => x.text == y.text,
            (ActionTargetKey::Evidence(x), ActionTargetKey::Evidence(y)) => x.text == y.text,
            (ActionTargetKey::ExternalRef(x), ActionTargetKey::ExternalRef(y)) => *x == *y,
            (ActionTargetKey::Dataset(x), ActionTargetKey::Dataset(y)) => *x == *y,
            (ActionTargetKey::System(x), ActionTargetKey::System(y)) => *x == *y,
            _ => false,
        }
    }

    fn copy(&self) -> (r: Self) {
        self.clone()
    }
}

impl From<&ActionTarget> for ActionTargetKey {
    fn from(value: &ActionTarget) -> (r: Self) {
        match value {
            ActionTarget::Node(x) => ActionTargetKey::Node(x.clone()),
            ActionTarget::Edge(x) => ActionTargetKey::Edge(x.clone()),
            ActionTarget::Claim(x) => ActionTargetKey::Claim(x.clone()),
            ActionTarget::Evidence(x) => ActionTargetKey::Evidence(x.clone()),
            ActionTarget::ExternalRef(x) => ActionTargetKey::ExternalRef(x.clone()),
            ActionTarget::Dataset(x) => ActionTargetKey::Dataset(x.clone()),
            ActionTarget::System(x) => ActionTargetKey::System(x.clone()),
        }
    }
}

impl FromSpecImpl<&ActionTarget> for ActionTargetKey {
    open spec fn obeys_from_spec() -> bool {
        true
    }

    open spec fn from_spec(value: &ActionTarget) -> Self {
        match *value {
            ActionTarget::Node(x) => ActionTargetKey::Node(x),
            ActionTarget::Edge(x) => ActionTargetKey::Edge(x),
            ActionTarget::Claim(x) => ActionTargetKey::Claim(x),
            ActionTarget::Evidence(x) => ActionTargetKey::Evidence(x),
            ActionTarget::ExternalRef(x) => ActionTargetKey::ExternalRef(x),
            ActionTarget::Dataset(x) => ActionTargetKey::Dataset(x),
            ActionTarget::System(x) => ActionTargetKey::System(x),
        }
    }
}

fn target_keys(targets: &Vec<ActionTarget>) -> (r: Vec<ActionTargetKey>)
    ensures
        key_views(r@) == action_target_models(targets@),
{
    let mut r: Vec<ActionTargetKey> = Vec::new();
    let mut i: usize = 0;
    while i < targets.len()
        invariant
            i <= targets@.len(),
            r@.len() == i,
            forall|j: int| 0 <= j < i ==> (#[trigger] r@[j])@ == targets@[j]@,
        decreases targets@.len() - i,
    {
        r.push(ActionTargetKey::from(&targets[i]));
        i += 1;
    }
    assert(key_views(r@) =~= action_target_models(targets@));
    r
}

/// What the store stands for: actions and outcomes by identifier.
pub struct ActionStoreModel {
    pub actions: Map<Seq<char>, ActionModel>,
    pub outcomes: Map<Seq<char>, OutcomeModel>,
}

/// Actions and outcomes, with indexes for queries.
pub struct ActionStore {
    pub actions: Table<Action>,
    pub actions_by_status: Index<ActionStatus>,
    pub actions_by_target: Index<ActionTargetKey>,
    pub actions_by_claim: Index<ClaimId>,
    pub outcomes: Table<Outcome>,
    pub outcomes_by_action: Index<ActionId>,
}

impl View for ActionStore {
    type V = ActionStoreModel;

    open spec fn view(&self) -> ActionStoreModel {
        ActionStoreModel { actions: map_views(self.actions@), outcomes: map_views(self.outcomes@) }
    }
}

impl Default for ActionStore {
    fn default() -> (r: Self)
        ensures
            r.inv(),
            r@ == ActionStoreModel::empty(),
    {
        ActionStore::new()
    }
}

impl ActionStoreModel {
    /// Nothing recorded.
    pub open spec fn empty() -> ActionStoreModel {
        ActionStoreModel { actions: Map::empty(), outcomes: Map::empty() }
    }

    /// The state with an action put in place of the one with its identifier.
    pub open spec fn with_action(self, action: ActionModel) -> ActionStoreModel {
        ActionStoreModel { actions: self.actions.insert(action.id, action), ..self }
    }

    /// The state with a new status for an action, or why there is none.
    pub open spec fn with_status(self, action_id: Seq<char>, status: ActionStatus, at: Timestamp) -> Result<
        ActionStoreModel,
        ErrorModel,
    > {
        if !self.actions.contains_key(action_id) {
            Err(ErrorModel::QueryError("unknown action: "@ + action_id))
        } else {
            Ok(self.with_action(moved(self.actions[action_id], status, at)))
        }
    }

    /// The state after an event, or why it is refused.
    pub open spec fn after(self, event: EventModel) -> Result<ActionStoreModel, ErrorModel> {
        match event.kind {
            EventKind::ActionProposed { action } => Ok(self.with_action(action@)),
            EventKind::ActionApproved { action_id, approved_by, .. } => {
                if !self.actions.contains_key(action_id@) {
                    Err(ErrorModel::QueryError("unknown action: "@ + action_id@))
                } else {
                    Ok(
                        self.with_action(
                            ActionModel {
                                approved_by: Some(approved_by@),
                                approved_at: Some(event.timestamp),
                                ..moved(self.actions[action_id@], ActionStatus::Approved, event.timestamp)
                            },
                        ),
                    )
                }
            },
            EventKind::ActionRejected { action_id, .. } => self.with_status(
                action_id@,
                ActionStatus::Rejected,
                event.timestamp,
            ),
            EventKind::ActionExecuting { action_id } => self.with_status(
                action_id@,
                ActionStatus::Executing,
                event.timestamp,
            ),
            EventKind::ActionExecuted { action_id } => {
                if !self.actions.contains_key(action_id@) {
                    Err(ErrorModel::QueryError("unknown action: "@ + action_id@))
                } else {
                    Ok(
                        self.with_action(
                            ActionModel {
                                executed_at: Some(event.timestamp),
                                ..moved(self.actions[action_id@], ActionStatus::Executed, event.timestamp)
                            },
                        ),
                    )
                }
            },
            EventKind::ActionFailed { action_id, .. } => self.with_status(
                action_id@,
                ActionStatus::Failed,
                event.timestamp,
            ),
            EventKind::ActionCancelled { action_id, .. } => self.with_status(
                action_id@,
                ActionStatus::Cancelled,
                event.timestamp,
            ),
            EventKind::OutcomeObserved { outcome } => {
                if !self.actions.contains_key(outcome@.action_id) {
                    Err(ErrorModel::QueryError("unknown action for outcome: "@ + outcome@.action_id))
                } else {
                    Ok(ActionStoreModel { outcomes: self.outcomes.insert(outcome@.id, outcome@), ..self })
                }
            },
            _ => Ok(self),
        }
    }

    /// The state after a list of events, up to the first that is refused.
    pub open spec fn after_all(self, events: Seq<EventModel>) -> (ActionStoreModel, Result<(), ErrorModel>)
        decreases events.len(),
    {
        if events.len() == 0 {
            (self, Ok(()))
        } else {
            match self.after(events[0]) {
                Ok(next) => next.after_all(events.skip(1)),
                Err(e) => (self, Err(e)),
            }
        }
    }
}

/// The action with a new status, from the given time.
pub open spec fn moved(action: ActionModel, status: ActionStatus, at: Timestamp) -> ActionModel {
    ActionModel { status, updated_at: at, ..action }
}

impl ActionStore {
    /// The tables are well formed, every record stands under its own identifier, and
    /// the indexes file exactly the records that have each key.
    pub open spec fn inv(&self) -> bool {
        &&& self.actions.wf()
        &&& self.actions_by_status.wf()
        &&& self.actions_by_target.wf()
        &&& self.actions_by_claim.wf()
        &&& self.outcomes.wf()
        &&& self.outcomes_by_action.wf()
        &&& forall|t: Seq<char>| #[trigger] self@.actions.contains_key(t) ==> self@.actions[t].id == t
        &&& forall|k: ActionStatus, t: Seq<char>| #[trigger]
            self.actions_by_status.has(k, t) <==> self@.actions.contains_key(t) && self@.actions[t].status == k
        &&& forall|k: ActionTargetModel, t: Seq<char>| #[trigger]
            self.actions_by_target.has(k, t) <==> self@.actions.contains_key(t) && self@.actions[t].targets.contains(k)
        &&& forall|k: Seq<char>, t: Seq<char>| #[trigger]
            self.actions_by_claim.has(k, t) <==> self@.actions.contains_key(t) && self@.actions[t].related_claims.contains(k)
        &&& forall|t: Seq<char>| #[trigger] self@.outcomes.contains_key(t) ==> self@.outcomes[t].id == t
        &&& forall|k: Seq<char>, t: Seq<char>| #[trigger]
            self.outcomes_by_action.has(k, t) <==> self@.outcomes.contains_key(t) && self@.outcomes[t].action_id == k
    }

    /// A store without records.
    pub fn new() -> (r: Self)
        ensures
            r.inv(),
            r@ == ActionStoreModel::empty(),
    {
        let r = ActionStore {
            actions: Table::new(),
            actions_by_status: Index::new(),
            actions_by_target: Index::new(),
            actions_by_claim: Index::new(),
            outcomes: Table::new(),
            outcomes_by_action: Index::new(),
        };
        assert(r@.actions =~= Map::<Seq<char>, ActionModel>::empty());
        assert(r@.outcomes =~= Map::<Seq<char>, OutcomeModel>::empty());
        r
    }

    /// The number of actions.
    pub fn action_count(&self) -> (r: usize)
        requires
            self.inv(),
        ensures
            r == self@.actions.len(),
    {
        assert(self@.actions.dom() =~= self.actions@.dom());
        self.actions.len()
    }

    /// The one of the actions with the identifier.
    pub fn action(&self, id: &ActionId) -> (r: Option<&Action>)
        requires
            self.inv(),
        ensures
            match r {
                Some(v) => self@.actions.contains_key(id@) && v@ == self@.actions[id@],
                None => !self@.actions.contains_key(id@),
            },
    {
        self.actions.get(id)
    }

    /// All actions, each once, in the order in which they were first recorded.
    pub fn all_actions(&self) -> (r: Vec<&Action>)
        requires
            self.inv(),
        ensures
            r@.len() == self.actions.order().len(),
            self.actions.order().no_duplicates(),
            forall|t: Seq<char>| #[trigger] self.actions.order().contains(t) <==> self@.actions.contains_key(t),
            forall|i: int| 0 <= i < r@.len() ==> #[trigger] views(r@)[i] == self@.actions[self.actions.order()[i]],
    {
        all_records(&self.actions)
    }

    /// The number of outcomes.
    pub fn outcome_count(&self) -> (r: usize)
        requires
            self.inv(),
        ensures
            r == self@.outcomes.len(),
    {
        assert(self@.outcomes.dom() =~= self.outcomes@.dom());
        self.outcomes.len()
    }

    /// The one of the outcomes with the identifier.
    pub fn outcome(&self, id: &OutcomeId) -> (r: Option<&Outcome>)
        requires
            self.inv(),
        ensures
            match r {
                Some(v) => self@.outcomes.contains_key(id@) && v@ == self@.outcomes[id@],
                None => !self@.outcomes.contains_key(id@),
            },
    {
        self.outcomes.get(id)
    }

    /// All outcomes, each once, in the order in which they were first recorded.
    pub fn all_outcomes(&self) -> (r: Vec<&Outcome>)
        requires
            self.inv(),
        ensures
            r@.len() == self.outcomes.order().len(),
            self.outcomes.order().no_duplicates(),
            forall|t: Seq<char>| #[trigger] self.outcomes.order().contains(t) <==> self@.outcomes.contains_key(t),
            forall|i: int| 0 <= i < r@.len() ==> #[trigger] views(r@)[i] == self@.outcomes[self.outcomes.order()[i]],
    {
        all_records(&self.outcomes)
    }

    /// The actions with a status.
    pub fn actions_with_status(&self, status: ActionStatus) -> (r: Vec<&Action>)
        requires
            self.inv(),
        ensures
            lists(
                views(r@),
                self@.actions,
                Set::new(|t: Seq<char>| self@.actions.contains_key(t) && self@.actions[t].status == status),
            ),
    {
        let r = filed(&self.actions, &self.actions_by_status, &status);
        assert(Set::new(|t: Seq<char>| self.actions_by_status.has(status, t)) =~= Set::new(
            |t: Seq<char>| self@.actions.contains_key(t) && self@.actions[t].status == status,
        ));
        r
    }

    /// The actions that are proposed.
    pub fn proposed_actions(&self) -> (r: Vec<&Action>)
        requires
            self.inv(),
        ensures
            lists(
                views(r@),
                self@.actions,
                Set::new(|t: Seq<char>| self@.actions.contains_key(t) && self@.actions[t].status == ActionStatus::Proposed),
            ),
    {
        self.actions_with_status(ActionStatus::Proposed)
    }

    /// The actions that are approved.
    pub fn approved_actions(&self) -> (r: Vec<&Action>)
        requires
            self.inv(),
        ensures
            lists(
                views(r@),
                self@.actions,
                Set::new(|t: Seq<char>| self@.actions.contains_key(t) && self@.actions[t].status == ActionStatus::Approved),
            ),
    {
        self.actions_with_status(ActionStatus::Approved)
    }

    /// The actions that are executing.
    pub fn executing_actions(&self) -> (r: Vec<&Action>)
        requires
            self.inv(),
        ensures
            lists(
                views(r@),
                self@.actions,
                Set::new(|t: Seq<char>| self@.actions.contains_key(t) && self@.actions[t].status == ActionStatus::Executing),
            ),
    {
        self.actions_with_status(ActionStatus::Executing)
    }

    /// The actions that are executed.
    pub fn executed_actions(&self) -> (r: Vec<&Action>)
        requires
            self.inv(),
        ensures
            lists(
                views(r@),
                self@.actions,
                Set::new(|t: Seq<char>| self@.actions.contains_key(t) && self@.actions[t].status == ActionStatus::Executed),
            ),
    {
        self.actions_with_status(ActionStatus::Executed)
    }

    /// The actions that are failed.
    pub fn failed_actions(&self) -> (r: Vec<&Action>)
        requires
            self.inv(),
        ensures
            lists(
                views(r@),
                self@.actions,
                Set::new(|t: Seq<char>| self@.actions.contains_key(t) && self@.actions[t].status == ActionStatus::Failed),
            ),
    {
        self.actions_with_status(ActionStatus::Failed)
    }

    /// The actions that are cancelled.
    pub fn cancelled_actions(&self) -> (r: Vec<&Action>)
        requires
            self.inv(),
        ensures
            lists(
                views(r@),
                self@.actions,
                Set::new(|t: Seq<char>| self@.actions.contains_key(t) && self@.actions[t].status == ActionStatus::Cancelled),
            ),
    {
        self.actions_with_status(ActionStatus::Cancelled)
    }

    /// The actions done to a target.
    pub fn actions_for_target(&self, target: &ActionTarget) -> (r: Vec<&Action>)
        requires
            self.inv(),
        ensures
            lists(
                views(r@),
                self@.actions,
                Set::new(|t: Seq<char>| self@.actions.contains_key(t) && self@.actions[t].targets.contains(target@)),
            ),
    {
        let key = ActionTargetKey::from(target);
        let r = filed(&self.actions, &self.actions_by_target, &key);
        assert(Set::new(|t: Seq<char>| self.actions_by_target.has(target@, t)) =~= Set::new(
            |t: Seq<char>| self@.actions.contains_key(t) && self@.actions[t].targets.contains(target@),
        ));
        r
    }

    /// The actions related to a claim.
    pub fn actions_for_claim(&self, claim_id: &ClaimId) -> (r: Vec<&Action>)
        requires
            self.inv(),
        ensures
            lists(
                views(r@),
                self@.actions,
                Set::new(|t: Seq<char>| self@.actions.contains_key(t) && self@.actions[t].related_claims.contains(claim_id@)),
            ),
    {
        let r = filed(&self.actions, &self.actions_by_claim, claim_id);
        assert(Set::new(|t: Seq<char>| self.actions_by_claim.has(claim_id@, t)) =~= Set::new(
            |t: Seq<char>| self@.actions.contains_key(t) && self@.actions[t].related_claims.contains(claim_id@),
        ));
        r
    }

    /// The outcomes of an action.
    pub fn outcomes_for_action(&self, action_id: &ActionId) -> (r: Vec<&Outcome>)
        requires
            self.inv(),
        ensures
            lists(
                views(r@),
                self@.outcomes,
                Set::new(|t: Seq<char>| self@.outcomes.contains_key(t) && self@.outcomes[t].action_id == action_id@),
            ),
    {
        let r = filed(&self.outcomes, &self.outcomes_by_action, action_id);
        assert(Set::new(|t: Seq<char>| self.outcomes_by_action.has(action_id@, t)) =~= Set::new(
            |t: Seq<char>| self@.outcomes.contains_key(t) && self@.outcomes[t].action_id == action_id@,
        ));
        r
    }

    fn insert_action(&mut self, action: Action)
        requires
            old(self).inv(),
        ensures
            final(self).inv(),
            final(self)@ == (ActionStoreModel { actions: old(self)@.actions.insert(action@.id, action@), ..old(self)@ }),
    {
        let ghost before = self@;
        let ghost stored = action@;
        let id = action.id.clone();
        if let Some(existing) = self.actions.get(&id) {
            remove_from_index(&mut self.actions_by_status, &existing.status, &id);
            remove_under_all(&mut self.actions_by_target, &target_keys(&existing.targets), &id);
            remove_under_all(&mut self.actions_by_claim, &existing.related_claims, &id);
            assert(key_views(existing.related_claims@) =~= texts(existing.related_claims@));
        }
        self.actions_by_status.insert(action.status, id.clone());
        insert_under_all(&mut self.actions_by_target, &target_keys(&action.targets), &id);
        insert_under_all(&mut self.actions_by_claim, &action.related_claims, &id);
        assert(key_views(action.related_claims@) =~= texts(action.related_claims@));
        self.actions.insert(id, action);
        assert(self@.actions =~= before.actions.insert(stored.id, stored));
    }

    fn record_outcome(&mut self, outcome: Outcome)
        requires
            old(self).inv(),
        ensures
            final(self).inv(),
            final(self)@ == (ActionStoreModel { outcomes: old(self)@.outcomes.insert(outcome@.id, outcome@), ..old(self)@ }),
    {
        let ghost before = self@;
        let ghost stored = outcome@;
        let id = outcome.id.clone();
        if let Some(existing) = self.outcomes.get(&id) {
            remove_from_index(&mut self.outcomes_by_action, &existing.action_id, &id);
        }
        self.outcomes_by_action.insert(outcome.action_id.clone(), id.clone());
        self.outcomes.insert(id, outcome);
        assert(self@.outcomes =~= before.outcomes.insert(stored.id, stored));
    }

    fn insert_outcome(&mut self, outcome: Outcome) -> (r: Result<(), HydraError>)
        requires
            old(self).inv(),
        ensures
            final(self).inv(),
            if old(self)@.actions.contains_key(outcome@.action_id) {
                &&& r is Ok
                &&& final(self)@ == (ActionStoreModel {
                    outcomes: old(self)@.outcomes.insert(outcome@.id, outcome@),
                    ..old(self)@
                })
            } else {
                &&& r is Err
                &&& r->Err_0@ == ErrorModel::QueryError("unknown action for outcome: "@ + outcome@.action_id)
                &&& final(self)@ == old(self)@
            },
    {
        if !self.actions.contains(&outcome.action_id) {
            return Err(query_error("unknown action for outcome: ", outcome.action_id.as_str()));
        }
        self.record_outcome(outcome);
        Ok(())
    }

    fn moved_action(&self, action_id: &ActionId, status: ActionStatus, at: Timestamp) -> (r: Result<Action, HydraError>)
        requires
            self.inv(),
        ensures
            match r {
                Ok(action) => self@.actions.contains_key(action_id@) && action@ == moved(
                    self@.actions[action_id@],
                    status,
                    at,
                ),
                Err(e) => !self@.actions.contains_key(action_id@) && e@ == ErrorModel::QueryError(
                    "unknown action: "@ + action_id@,
                ),
            },
    {
        match self.actions.get(action_id) {
            Some(existing) => {
                let mut action = existing.clone();
                action.status = status;
                action.updated_at = at;
                Ok(action)
            },
            None => Err(query_error("unknown action: ", action_id.as_str())),
        }
    }

    fn update_status(&mut self, action_id: &ActionId, status: ActionStatus, at: Timestamp) -> (r: Result<(), HydraError>)
        requires
            old(self).inv(),
        ensures
            final(self).inv(),
            match old(self)@.with_status(action_id@, status, at) {
                Ok(next) => r is Ok && final(self)@ == next,
                Err(e) => r is Err && r->Err_0@ == e && final(self)@ == old(self)@,
            },
    {
        match self.moved_action(action_id, status, at) {
            Ok(action) => {
                self.insert_action(action);
                Ok(())
            },
            Err(e) => Err(e),
        }
    }

    /// Applies an event. Events of other kinds are ignored; a refused event changes nothing.
    pub fn apply_event(&mut self, event: &Event) -> (r: Result<(), HydraError>)
        requires
            old(self).inv(),
        ensures
            final(self).inv(),
            match old(self)@.after(event@) {
                Ok(next) => r is Ok && final(self)@ == next,
                Err(e) => r is Err && r->Err_0@ == e && final(self)@ == old(self)@,
            },
    {
        match &event.kind {
            EventKind::ActionProposed { action } => {
                self.insert_action(action.clone());
                Ok(())
            },
            EventKind::ActionApproved { action_id, approved_by, .. } => {
                match self.moved_action(action_id, ActionStatus::Approved, event.timestamp) {
                    Ok(action) => {
                        let mut action = action;
                        action.approved_by = Some(approved_by.clone());
                        action.approved_at = Some(event.timestamp);
                        self.insert_action(action);
                        Ok(())
                    },
                    Err(e) => Err(e),
                }
            },
            EventKind::ActionRejected { action_id, .. } => self.update_status(
                action_id,
                ActionStatus::Rejected,
                event.timestamp,
            ),
            EventKind::ActionExecuting { action_id } => self.update_status(
                action_id,
                ActionStatus::Executing,
                event.timestamp,
            ),
            EventKind::ActionExecuted { action_id } => {
                match self.moved_action(action_id, ActionStatus::Executed, event.timestamp) {
                    Ok(action) => {
                        let mut action = action;
                        action.executed_at = Some(event.timestamp);
                        self.insert_action(action);
                        Ok(())
                    },
                    Err(e) => Err(e),
                }
            },
            EventKind::ActionFailed { action_id, .. } => self.update_status(
                action_id,
                ActionStatus::Failed,
                event.timestamp,
            ),
            EventKind::ActionCancelled { action_id, .. } => self.update_status(
                action_id,
                ActionStatus::Cancelled,
                event.timestamp,
            ),
            EventKind::OutcomeObserved { outcome } => self.insert_outcome(outcome.clone()),
            _ => Ok(()),
        }
    }

    /// Applies events in order, up to the first that is refused.
    pub fn apply_events(&mut self, events: &Vec<Event>) -> (r: Result<(), HydraError>)
        requires
            old(self).inv(),
        ensures
            final(self).inv(),
            final(self)@ == old(self)@.after_all(event_models(events@)).0,
            same_outcome(r, old(self)@.after_all(event_models(events@)).1),
    {
        let ghost before = self@;
        let mut i: usize = 0;
        let ghost models = event_models(events@);
        assert(models.skip(0) =~= models);
        while i < events.len()
            invariant
                i <= events@.len(),
                self.inv(),
                before == old(self)@,
                models == event_models(events@),
                self@.after_all(models.skip(i as int)) == before.after_all(models),
            decreases events@.len() - i,
        {
            proof {
                assert(models.skip(i as int)[0] == events@[i as int]@);
                assert(models.skip(i as int).skip(1) =~= models.skip(i + 1));
            }
            match self.apply_event(&events[i]) {
                Ok(_) => {},
                Err(e) => {
                    return Err(e);
                },
            }
            i += 1;
        }
        Ok(())
    }
}

/// Every outcome belongs to an action that is known.
pub open spec fn outcomes_have_actions(store: ActionStoreModel) -> bool {
    forall|t: Seq<char>| #[trigger]
        store.outcomes.contains_key(t) ==> store.actions.contains_key(store.outcomes[t].action_id)
}

/// Events keep every outcome with a known action, and never forget an action or an
/// outcome.
pub proof fn law_outcomes_keep_their_actions(store: ActionStoreModel, event: EventModel)
    requires
        outcomes_have_actions(store),
        store.after(event) is Ok,
    ensures
        outcomes_have_actions(store.after(event)->Ok_0),
        forall|t: Seq<char>| #[trigger]
            store.actions.contains_key(t) ==> store.after(event)->Ok_0.actions.contains_key(t),
        forall|t: Seq<char>| #[trigger]
            store.outcomes.contains_key(t) ==> store.after(event)->Ok_0.outcomes.contains_key(t),
{
    let next = store.after(event)->Ok_0;
    assert forall|t: Seq<char>| #[trigger] next.outcomes.contains_key(t) implies next.actions.contains_key(
        next.outcomes[t].action_id,
    ) by {
        if store.outcomes.contains_key(t) {
            assert(store.actions.contains_key(store.outcomes[t].action_id));
        }
    }
}

} // verus!
