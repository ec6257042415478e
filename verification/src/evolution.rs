//! How well subscriptions do: fires, judgements, misses, and proposals to change them.

use crate::anomaly_rules::{anomaly_models, Anomaly, AnomalyModel};
use crate::cascade::{producers, CascadeResult};
use crate::counterfactual::capped;
use crate::decimals::{fixed, fixed_text, percent, percent_text};
use crate::event::{borrowed_models, event_models, Event, EventModel};
use crate::event_log::{causes, descendants, last_position, law_descendants_are_unique, EventLog, LogModel};
use crate::ids::{holds_id, opt_text, texts, EventId, Id, SubscriptionId};
use crate::arithmetic::{law_parts_are_at_most_one, law_rests_are_at_most_one};
use crate::number::{Number, ONE};
use crate::projection::counted;
use crate::registry::{
    asking, borrowed_subscriptions, opt_filter, passes, refiltered, subscription_at, EventFilter, FilterModel, Subscription,
    SubscriptionModel, SubscriptionRegistry,
};
use crate::table::{map_views, views, Table};
use crate::text::{decimal, decimal_text, opt_chars};
use crate::time::Timestamp;
use vstd::hash_map::StringHashMap;
use vstd::prelude::*;
use vstd::string::StringExecFns;

verus! {

/// The judgement on a fire.
#[derive(Debug, Clone, Copy, PartialEq, Eq, Structural)]
pub enum SubscriptionOutcome {
    /// It was right.
    Confirmed,
    /// It was a false alarm.
    Dismissed,
    /// It was accepted without a look.
    AutoAccepted,
}

/// The judgement on a fire.
pub type Outcome = SubscriptionOutcome;

/// A fire of a subscription.
#[derive(Debug)]
pub struct FireRecord {
    pub timestamp: Timestamp,
    pub trigger_event_id: EventId,
    pub reaction_count: usize,
    pub outcome: Option<SubscriptionOutcome>,
}

/// What a fire stands for.
pub struct FireModel {
    pub timestamp: Timestamp,
    pub trigger_event_id: Seq<char>,
    pub reaction_count: nat,
    pub outcome: Option<SubscriptionOutcome>,
}

impl View for FireRecord {
    type V = FireModel;

    open spec fn view(&self) -> FireModel {
        FireModel {
            timestamp: self.timestamp,
            trigger_event_id: self.trigger_event_id@,
            reaction_count: self.reaction_count as nat,
            outcome: self.outcome,
        }
    }
}

/// An event that a subscription should have fired on.
#[derive(Debug)]
pub struct MissRecord {
    pub recorded_at: Timestamp,
    pub missed_event_id: EventId,
    pub reason: Option<String>,
}

/// What a miss stands for.
pub struct MissModel {
    pub recorded_at: Timestamp,
    pub missed_event_id: Seq<char>,
    pub reason: Option<Seq<char>>,
}

impl View for MissRecord {
    type V = MissModel;

    open spec fn view(&self) -> MissModel {
        MissModel {
            recorded_at: self.recorded_at,
            missed_event_id: self.missed_event_id@,
            reason: opt_chars(self.reason),
        }
    }
}

/// What fires stand for.
pub open spec fn fire_models(list: Seq<FireRecord>) -> Seq<FireModel> {
    list.map_values(|f: FireRecord| f@)
}

/// What misses stand for.
pub open spec fn miss_models(list: Seq<MissRecord>) -> Seq<MissModel> {
    list.map_values(|m: MissRecord| m@)
}

/// How well a subscription has done.
#[derive(Debug)]
pub struct SubscriptionMetrics {
    pub subscription_id: SubscriptionId,
    pub subscription_name: String,
    pub total_fires: u64,
    pub total_reactions: u64,
    pub true_positives: u64,
    pub false_positives: u64,
    pub auto_accepted: u64,
    pub false_negatives: u64,
    pub fire_log: Vec<FireRecord>,
    pub miss_log: Vec<MissRecord>,
}

/// What metrics stand for.
pub struct MetricsModel {
    pub subscription_id: Seq<char>,
    pub subscription_name: Seq<char>,
    pub total_fires: nat,
    pub total_reactions: nat,
    pub true_positives: nat,
    pub false_positives: nat,
    pub auto_accepted: nat,
    pub false_negatives: nat,
    pub fires: Seq<FireModel>,
    pub misses: Seq<MissModel>,
}

impl View for SubscriptionMetrics {
    type V = MetricsModel;

    open spec fn view(&self) -> MetricsModel {
        MetricsModel {
            subscription_id: self.subscription_id@,
            subscription_name: self.subscription_name@,
            total_fires: self.total_fires as nat,
            total_reactions: self.total_reactions as nat,
            true_positives: self.true_positives as nat,
            false_positives: self.false_positives as nat,
            auto_accepted: self.auto_accepted as nat,
            false_negatives: self.false_negatives as nat,
            fires: fire_models(self.fire_log@),
            misses: miss_models(self.miss_log@),
        }
    }
}

/// How many fires have the outcome.
pub open spec fn outcome_count(fires: Seq<FireModel>, outcome: Option<SubscriptionOutcome>) -> nat
    decreases fires.len(),
{
    if fires.len() == 0 {
        0
    } else {
        outcome_count(fires.drop_last(), outcome) + if fires.last().outcome == outcome {
            1nat
        } else {
            0nat
        }
    }
}

/// Whether the subscription fired on the event.
pub open spec fn fired_on(fires: Seq<FireModel>, event: Seq<char>) -> bool {
    exists|i: int| 0 <= i < fires.len() && (#[trigger] fires[i]).trigger_event_id == event
}

/// Whether the event is known as missed.
pub open spec fn known_miss(misses: Seq<MissModel>, event: Seq<char>) -> bool {
    exists|i: int| 0 <= i < misses.len() && (#[trigger] misses[i]).missed_event_id == event
}

impl MetricsModel {
    /// The metrics of a subscription that nothing is known of.
    pub open spec fn fresh(id: Seq<char>, name: Seq<char>) -> Self {
        MetricsModel {
            subscription_id: id,
            subscription_name: name,
            total_fires: 0,
            total_reactions: 0,
            true_positives: 0,
            false_positives: 0,
            auto_accepted: 0,
            false_negatives: 0,
            fires: Seq::empty(),
            misses: Seq::empty(),
        }
    }

    /// The counters agree with the logs, and no event is listed as missed twice.
    pub open spec fn sound(self) -> bool {
        &&& self.total_fires == self.fires.len()
        &&& self.true_positives == outcome_count(self.fires, Some(SubscriptionOutcome::Confirmed))
        &&& self.false_positives == outcome_count(self.fires, Some(SubscriptionOutcome::Dismissed))
        &&& self.auto_accepted == outcome_count(self.fires, Some(SubscriptionOutcome::AutoAccepted))
        &&& self.false_negatives == self.misses.len()
        &&& forall|i: int, j: int|
            0 <= i < j < self.misses.len() ==> (#[trigger] self.misses[i]).missed_event_id != (
            #[trigger] self.misses[j]).missed_event_id
    }

    /// One more fire.
    pub open spec fn with_fire(self, event: EventModel, reactions: nat) -> Self {
        MetricsModel {
            total_fires: self.total_fires + 1,
            total_reactions: counted(self.total_reactions + reactions),
            fires: self.fires.push(
                FireModel {
                    timestamp: event.timestamp,
                    trigger_event_id: event.id,
                    reaction_count: reactions,
                    outcome: None,
                },
            ),
            ..self
        }
    }

    /// One more miss.
    pub open spec fn with_miss(self, event: Seq<char>, reason: Option<Seq<char>>, now: Timestamp) -> Self {
        MetricsModel {
            false_negatives: self.false_negatives + 1,
            misses: self.misses.push(MissModel { recorded_at: now, missed_event_id: event, reason }),
            ..self
        }
    }

    /// So many more judgements counted.
    pub open spec fn with_count(self, outcome: SubscriptionOutcome, n: nat) -> Self {
        match outcome {
            SubscriptionOutcome::Confirmed => MetricsModel { true_positives: self.true_positives + n, ..self },
            SubscriptionOutcome::Dismissed => MetricsModel { false_positives: self.false_positives + n, ..self },
            SubscriptionOutcome::AutoAccepted => MetricsModel { auto_accepted: self.auto_accepted + n, ..self },
        }
    }

    /// The fire judged.
    pub open spec fn judged(self, i: int, outcome: SubscriptionOutcome) -> Self {
        MetricsModel {
            fires: self.fires.update(i, (FireModel { outcome: Some(outcome), ..self.fires[i] })),
            ..self.with_count(outcome, 1)
        }
    }

    /// All fires without a judgement judged.
    pub open spec fn all_judged(self, outcome: SubscriptionOutcome) -> Self {
        MetricsModel {
            fires: judged_fires(self.fires, outcome),
            ..self.with_count(outcome, outcome_count(self.fires, None))
        }
    }

    /// The number of judgements of a human.
    pub open spec fn judgements(self) -> nat {
        counted(self.true_positives + self.false_positives)
    }

    /// The part of the judged fires that were right.
    pub open spec fn precision_of(self) -> Option<Number> {
        if self.judgements() == 0 {
            None
        } else {
            Some(Number::part(self.true_positives, self.judgements()))
        }
    }

    /// The part of the judged fires that were false alarms.
    #[verifier::opaque]
    pub open spec fn rate_of(self) -> Option<Number> {
        match self.precision_of() {
            Some(p) => Some(p.rest()),
            None => None,
        }
    }

    /// The part of what should be caught that was caught.
    pub open spec fn recall_of(self) -> Option<Number> {
        let total = counted(self.true_positives + self.false_negatives);
        if total == 0 {
            None
        } else {
            Some(Number::part(self.true_positives, total))
        }
    }
}

/// The fires with a judgement for each that has none.
pub open spec fn judged_fires(fires: Seq<FireModel>, outcome: SubscriptionOutcome) -> Seq<FireModel> {
    fires.map_values(
        |f: FireModel|
            if f.outcome is None {
                FireModel { outcome: Some(outcome), ..f }
            } else {
                f
            },
    )
}

proof fn count_of_update(fires: Seq<FireModel>, i: int, f: FireModel, outcome: Option<SubscriptionOutcome>)
    requires
        0 <= i < fires.len(),
    ensures
        outcome_count(fires.update(i, f), outcome) == outcome_count(fires, outcome) - (if fires[i].outcome == outcome {
            1int
        } else {
            0int
        }) + (if f.outcome == outcome {
            1int
        } else {
            0int
        }),
    decreases fires.len(),
{
    let new = fires.update(i, f);
    if i == fires.len() - 1 {
        assert(new.drop_last() =~= fires.drop_last());
    } else {
        assert(new.drop_last() =~= fires.drop_last().update(i, f));
        count_of_update(fires.drop_last(), i, f, outcome);
    }
}

proof fn counts_add_up(fires: Seq<FireModel>)
    ensures
        outcome_count(fires, None) + outcome_count(fires, Some(SubscriptionOutcome::Confirmed)) + outcome_count(
            fires,
            Some(SubscriptionOutcome::Dismissed),
        ) + outcome_count(fires, Some(SubscriptionOutcome::AutoAccepted)) == fires.len(),
    decreases fires.len(),
{
    if fires.len() > 0 {
        counts_add_up(fires.drop_last());
        match fires.last().outcome {
            None => {},
            Some(SubscriptionOutcome::Confirmed) => {},
            Some(SubscriptionOutcome::Dismissed) => {},
            Some(SubscriptionOutcome::AutoAccepted) => {},
        }
    }
}

proof fn count_of_push(fires: Seq<FireModel>, f: FireModel, outcome: Option<SubscriptionOutcome>)
    ensures
        outcome_count(fires.push(f), outcome) == outcome_count(fires, outcome) + (if f.outcome == outcome {
            1int
        } else {
            0int
        }),
{
    assert(fires.push(f).drop_last() =~= fires);
}

impl SubscriptionMetrics {
    fn new(id: SubscriptionId, name: String) -> (r: Self)
        ensures
            r@ == MetricsModel::fresh(id@, name@),
            r@.sound(),
    {
        let r = SubscriptionMetrics {
            subscription_id: id,
            subscription_name: name,
            total_fires: 0,
            total_reactions: 0,
            true_positives: 0,
            false_positives: 0,
            auto_accepted: 0,
            false_negatives: 0,
            fire_log: Vec::new(),
            miss_log: Vec::new(),
        };
        assert(r@.fires =~= Seq::<FireModel>::empty());
        assert(r@.misses =~= Seq::<MissModel>::empty());
        r
    }

    /// The part of the judged fires that were right; none where nothing was judged.
    pub fn precision(&self) -> (r: Option<Number>)
        ensures
            r == self@.precision_of(),
            r is Some ==> r->0.bits <= ONE,
    {
        let total_judged: u64 = self.true_positives.saturating_add(self.false_positives);
        if total_judged == 0 {
            return None;
        }
        proof {
            law_parts_are_at_most_one(self.true_positives, total_judged);
        }
        Some(Number::quotient(self.true_positives, total_judged))
    }

    /// The part of the judged fires that were false alarms.
    pub fn false_positive_rate(&self) -> (r: Option<Number>)
        ensures
            r == self@.rate_of(),
            r is Some ==> r->0.bits <= ONE,
    {
        reveal(MetricsModel::rate_of);
        match self.precision() {
            Some(p) => {
                proof {
                    law_rests_are_at_most_one(p);
                }
                Some(Number::from_bits(ONE).minus(p))
            },
            None => None,
        }
    }

    /// The part of what should be caught that was caught; none where nothing was right and
    /// nothing missed.
    pub fn recall(&self) -> (r: Option<Number>)
        ensures
            r == self@.recall_of(),
            r is Some ==> r->0.bits <= ONE,
    {
        let total: u64 = self.true_positives.saturating_add(self.false_negatives);
        if total == 0 {
            return None;
        }
        proof {
            law_parts_are_at_most_one(self.true_positives, total);
        }
        Some(Number::quotient(self.true_positives, total))
    }

    /// How many fires have no judgement.
    pub fn pending_outcomes(&self) -> (r: u64)
        requires
            self@.sound(),
        ensures
            r == self@.total_fires - self@.true_positives - self@.false_positives - self@.auto_accepted,
            r == outcome_count(self@.fires, None),
    {
        proof {
            counts_add_up(self@.fires);
        }
        self.total_fires - self.true_positives - self.false_positives - self.auto_accepted
    }

    fn fire(&mut self, event: &Event, reaction_count: usize)
        requires
            old(self)@.sound(),
        ensures
            final(self)@ == old(self)@.with_fire(event@, reaction_count as nat),
            final(self)@.sound(),
    {
        let ghost before = self@;
        let record = FireRecord {
            timestamp: event.timestamp,
            trigger_event_id: event.id.clone(),
            reaction_count,
            outcome: None,
        };
        let ghost f = record@;
        self.fire_log.push(record);
        self.total_fires = self.fire_log.len() as u64;
        self.total_reactions = self.total_reactions.saturating_add(reaction_count as u64);
        proof {
            assert(self@.fires =~= before.fires.push(f));
            count_of_push(before.fires, f, Some(SubscriptionOutcome::Confirmed));
            count_of_push(before.fires, f, Some(SubscriptionOutcome::Dismissed));
            count_of_push(before.fires, f, Some(SubscriptionOutcome::AutoAccepted));
        }
    }

    fn miss(&mut self, event: EventId, reason: Option<String>, now: Timestamp)
        requires
            old(self)@.sound(),
            !known_miss(old(self)@.misses, event@),
        ensures
            final(self)@ == old(self)@.with_miss(event@, opt_chars(reason), now),
            final(self)@.sound(),
    {
        let ghost before = self@;
        let record = MissRecord { recorded_at: now, missed_event_id: event, reason };
        let ghost m = record@;
        self.miss_log.push(record);
        self.false_negatives = self.miss_log.len() as u64;
        proof {
            assert(self@.misses =~= before.misses.push(m));
        }
    }

    fn has_miss(&self, event: &EventId) -> (r: bool)
        ensures
            r == known_miss(self@.misses, event@),
    {
        let mut i: usize = 0;
        while i < self.miss_log.len()
            invariant
                i <= self.miss_log@.len(),
                forall|j: int| 0 <= j < i ==> (#[trigger] self@.misses[j]).missed_event_id != event@,
            decreases self.miss_log@.len() - i,
        {
            assert(self@.misses[i as int] == self.miss_log@[i as int]@);
            if self.miss_log[i].missed_event_id.same(event) {
                return true;
            }
            i += 1;
        }
        false
    }

    fn has_fire(&self, event: &EventId) -> (r: bool)
        ensures
            r == fired_on(self@.fires, event@),
    {
        let mut i: usize = 0;
        while i < self.fire_log.len()
            invariant
                i <= self.fire_log@.len(),
                forall|j: int| 0 <= j < i ==> (#[trigger] self@.fires[j]).trigger_event_id != event@,
            decreases self.fire_log@.len() - i,
        {
            assert(self@.fires[i as int] == self.fire_log@[i as int]@);
            if self.fire_log[i].trigger_event_id.same(event) {
                return true;
            }
            i += 1;
        }
        false
    }

    fn judge(&mut self, i: usize, outcome: SubscriptionOutcome)
        requires
            old(self)@.sound(),
            i < old(self)@.fires.len(),
            old(self)@.fires[i as int].outcome is None,
        ensures
            final(self)@ == old(self)@.judged(i as int, outcome),
            final(self)@.sound(),
    {
        let ghost before = self@;
        self.fire_log[i].outcome = Some(outcome);
        proof {
            let f = FireModel { outcome: Some(outcome), ..before.fires[i as int] };
            assert(fire_models(self.fire_log@) =~= before.fires.update(i as int, f));
            counts_add_up(fire_models(self.fire_log@));
            count_of_update(before.fires, i as int, f, Some(SubscriptionOutcome::Confirmed));
            count_of_update(before.fires, i as int, f, Some(SubscriptionOutcome::Dismissed));
            count_of_update(before.fires, i as int, f, Some(SubscriptionOutcome::AutoAccepted));
        }
        match outcome {
            SubscriptionOutcome::Confirmed => {
                self.true_positives = self.true_positives + 1;
            },
            SubscriptionOutcome::Dismissed => {
                self.false_positives = self.false_positives + 1;
            },
            SubscriptionOutcome::AutoAccepted => {
                self.auto_accepted = self.auto_accepted + 1;
            },
        }
    }

    fn judge_all(&mut self, outcome: SubscriptionOutcome) -> (r: usize)
        requires
            old(self)@.sound(),
        ensures
            final(self)@ == old(self)@.all_judged(outcome),
            final(self)@.sound(),
            r == outcome_count(old(self)@.fires, None),
    {
        let ghost before = self@;
        let ghost wanted = judged_fires(before.fires, outcome);
        let n: usize = self.fire_log.len();
        let mut count: usize = 0;
        let mut i: usize = 0;
        proof {
            assert(before.fires.take(0) =~= Seq::<FireModel>::empty());
            counts_add_up(before.fires);
            assert(self@ == (MetricsModel { fires: self@.fires, ..before.with_count(outcome, 0) }));
        }
        while i < n
            invariant
                i <= n,
                n == before.fires.len(),
                n == self.fire_log@.len(),
                self@.sound(),
                wanted == judged_fires(before.fires, outcome),
                count == outcome_count(before.fires.take(i as int), None),
                count <= i,
                forall|j: int| 0 <= j < i ==> #[trigger] self@.fires[j] == wanted[j],
                forall|j: int| i <= j < n ==> #[trigger] self@.fires[j] == before.fires[j],
                self@ == (MetricsModel { fires: self@.fires, ..before.with_count(outcome, count as nat) }),
            decreases n - i,
        {
            proof {
                assert(before.fires.take(i + 1).drop_last() =~= before.fires.take(i as int));
                assert(before.fires.take(i + 1).last() == self@.fires[i as int]);
                assert(self@.fires[i as int] == self.fire_log@[i as int]@);
            }
            if self.fire_log[i].outcome.is_none() {
                let ghost now = self@;
                self.judge(i, outcome);
                count += 1;
                proof {
                    assert forall|j: int| 0 <= j < n implies #[trigger] self@.fires[j] == (if j <= i {
                        wanted[j]
                    } else {
                        before.fires[j]
                    }) by {
                        if j != i {
                            assert(self@.fires[j] == now.fires[j]);
                        }
                    }
                }
            }
            i += 1;
        }
        proof {
            assert(before.fires.take(n as int) =~= before.fires);
            assert(self@.fires =~= wanted);
        }
        count
    }
}

/// Where a proposal stands.
#[derive(Debug, Clone, Copy, PartialEq, Eq, Structural)]
pub enum ProposalStatus {
    Proposed,
    Approved,
    Rejected,
    Applied,
}

/// A proposal to change a subscription.
#[derive(Debug)]
pub struct MutationProposal {
    pub subscription_id: SubscriptionId,
    pub description: String,
    pub rationale: String,
    pub proposed_filter: Option<EventFilter>,
    pub estimated_precision: Option<Number>,
    pub fires_prevented: u64,
    pub true_positives_lost: u64,
    pub status: ProposalStatus,
    pub proposed_at: Timestamp,
    pub resolved_at: Option<Timestamp>,
}

/// What a proposal stands for.
pub struct ProposalModel {
    pub subscription_id: Seq<char>,
    pub description: Seq<char>,
    pub rationale: Seq<char>,
    pub proposed_filter: Option<FilterModel>,
    pub estimated_precision: Option<Number>,
    pub fires_prevented: nat,
    pub true_positives_lost: nat,
    pub status: ProposalStatus,
    pub proposed_at: Timestamp,
    pub resolved_at: Option<Timestamp>,
}

impl View for MutationProposal {
    type V = ProposalModel;

    open spec fn view(&self) -> ProposalModel {
        ProposalModel {
            subscription_id: self.subscription_id@,
            description: self.description@,
            rationale: self.rationale@,
            proposed_filter: opt_filter(self.proposed_filter),
            estimated_precision: self.estimated_precision,
            fires_prevented: self.fires_prevented as nat,
            true_positives_lost: self.true_positives_lost as nat,
            status: self.status,
            proposed_at: self.proposed_at,
            resolved_at: self.resolved_at,
        }
    }
}

/// What proposals stand for.
pub open spec fn proposal_models(list: Seq<MutationProposal>) -> Seq<ProposalModel> {
    list.map_values(|p: MutationProposal| p@)
}

/// The metrics of subscriptions and the proposals to change them.
pub struct SubscriptionTracker {
    metrics: Table<SubscriptionMetrics>,
    pub proposals: Vec<MutationProposal>,
    min_fires_for_proposal: u64,
    fp_rate_threshold: Number,
}

/// What a tracker stands for. The order is that in which the subscriptions became known.
pub struct TrackerModel {
    pub order: Seq<Seq<char>>,
    pub metrics: Map<Seq<char>, MetricsModel>,
    pub proposals: Seq<ProposalModel>,
    pub min_fires: nat,
    pub threshold: Number,
}

impl View for SubscriptionTracker {
    type V = TrackerModel;

    closed spec fn view(&self) -> TrackerModel {
        TrackerModel {
            order: self.metrics.order(),
            metrics: map_views(self.metrics@),
            proposals: proposal_models(self.proposals@),
            min_fires: self.min_fires_for_proposal as nat,
            threshold: self.fp_rate_threshold,
        }
    }
}

impl TrackerModel {
    /// The metrics are sound, each under the identifier of its subscription, and the order
    /// lists these identifiers, each once.
    pub open spec fn sound(self) -> bool {
        &&& forall|t: Seq<char>| #[trigger]
            self.metrics.contains_key(t) ==> self.metrics[t].sound() && self.metrics[t].subscription_id == t
        &&& self.order.no_duplicates()
        &&& forall|t: Seq<char>| #[trigger] self.order.contains(t) <==> self.metrics.contains_key(t)
    }

    /// The metrics of a subscription, or fresh ones under the name.
    pub open spec fn metrics_or(self, id: Seq<char>, name: Seq<char>) -> MetricsModel {
        if self.metrics.contains_key(id) {
            self.metrics[id]
        } else {
            MetricsModel::fresh(id, name)
        }
    }

    /// The metrics of a subscription set.
    pub open spec fn with_metrics(self, id: Seq<char>, metrics: MetricsModel) -> Self {
        TrackerModel {
            order: if self.metrics.contains_key(id) {
                self.order
            } else {
                self.order.push(id)
            },
            metrics: self.metrics.insert(id, metrics),
            ..self
        }
    }

    /// A fire recorded; a subscription that is not known yet is given the name.
    pub open spec fn with_fire(self, id: Seq<char>, name: Seq<char>, event: EventModel, reactions: nat) -> Self {
        self.with_metrics(id, self.metrics_or(id, name).with_fire(event, reactions))
    }

    /// Whether a miss would be recorded: it is not known yet.
    pub open spec fn is_new_miss(self, id: Seq<char>, event: Seq<char>) -> bool {
        !(self.metrics.contains_key(id) && known_miss(self.metrics[id].misses, event))
    }

    /// A miss recorded, unless it is known; a subscription that is not known yet is given the
    /// name.
    pub open spec fn with_miss(
        self,
        id: Seq<char>,
        name: Seq<char>,
        event: Seq<char>,
        reason: Option<Seq<char>>,
        now: Timestamp,
    ) -> Self {
        if self.is_new_miss(id, event) {
            self.with_metrics(id, self.metrics_or(id, name).with_miss(event, reason, now))
        } else {
            self
        }
    }

    /// Whether the fire is there and has no judgement.
    pub open spec fn can_judge(self, id: Seq<char>, i: int) -> bool {
        &&& self.metrics.contains_key(id)
        &&& 0 <= i < self.metrics[id].fires.len()
        &&& self.metrics[id].fires[i].outcome is None
    }
}

proof fn views_of_insert(before: Map<Seq<char>, SubscriptionMetrics>, id: Seq<char>, m: SubscriptionMetrics)
    ensures
        map_views(before.insert(id, m)) == map_views(before).insert(id, m@),
{
    assert(map_views(before.insert(id, m)) =~= map_views(before).insert(id, m@));
}

impl SubscriptionTracker {
    /// The tracker is in order: its metrics can be found and are sound.
    pub closed spec fn inv(&self) -> bool {
        &&& self.metrics.wf()
        &&& forall|t: Seq<char>| #[trigger]
            self.metrics@.contains_key(t) ==> self.metrics@[t]@.sound() && self.metrics@[t]@.subscription_id == t
    }

    /// What a tracker in order stands for is sound.
    pub proof fn inv_is_sound(&self)
        requires
            self.inv(),
        ensures
            self@.sound(),
    {
        self.metrics.order_is_domain();
    }

    /// A tracker that knows nothing; proposals are made from ten fires on and where more than
    /// half of what was judged were false alarms.
    pub fn new() -> (r: Self)
        ensures
            r.inv(),
            r@ == (TrackerModel {
                order: Seq::empty(),
                metrics: Map::empty(),
                proposals: Seq::empty(),
                min_fires: 10,
                threshold: Number { bits: 0x3fe0_0000_0000_0000 },
            }),
    {
        let r = SubscriptionTracker {
            metrics: Table::new(),
            proposals: Vec::new(),
            min_fires_for_proposal: 10,
            fp_rate_threshold: Number::from_bits(0x3fe0_0000_0000_0000),
        };
        assert(r@.order =~= Seq::<Seq<char>>::empty());
        assert(r@.metrics =~= Map::<Seq<char>, MetricsModel>::empty());
        assert(r@.proposals =~= Seq::<ProposalModel>::empty());
        r
    }

    /// With another number of fires before proposals are made.
    pub fn with_min_fires(self, min: u64) -> (r: Self)
        ensures
            self.inv() ==> r.inv(),
            r@ == (TrackerModel { min_fires: min as nat, ..self@ }),
    {
        SubscriptionTracker {
            metrics: self.metrics,
            proposals: self.proposals,
            min_fires_for_proposal: min,
            fp_rate_threshold: self.fp_rate_threshold,
        }
    }

    /// With another part of false alarms beyond which proposals are made.
    pub fn with_fp_threshold(self, threshold: Number) -> (r: Self)
        ensures
            self.inv() ==> r.inv(),
            r@ == (TrackerModel { threshold, ..self@ }),
    {
        SubscriptionTracker {
            metrics: self.metrics,
            proposals: self.proposals,
            min_fires_for_proposal: self.min_fires_for_proposal,
            fp_rate_threshold: threshold,
        }
    }

    fn record_fire(&mut self, id: &SubscriptionId, name: &str, event: &Event, reactions: usize)
        requires
            old(self).inv(),
        ensures
            final(self).inv(),
            final(self)@ == old(self)@.with_fire(id@, name@, event@, reactions as nat),
    {
        let ghost before = *self;
        match self.metrics.slot(id) {
            Some(i) => {
                let m = self.metrics.at_mut(i);
                m.fire(event, reactions);
            },
            None => {
                let mut m = SubscriptionMetrics::new(id.clone(), name.to_owned());
                m.fire(event, reactions);
                self.metrics.insert(id.clone(), m);
            },
        }
        proof {
            views_of_insert(before.metrics@, id@, self.metrics@[id@]);
            assert(self.metrics@ == before.metrics@.insert(id@, self.metrics@[id@]));
            assert(self@.metrics == before@.metrics.insert(id@, self.metrics@[id@]@));
        }
    }

    /// Records a judgement of a fire; says whether it did. A fire that is judged stays as it
    /// is.
    pub fn record_outcome(&mut self, subscription_id: &SubscriptionId, fire_index: usize, outcome: SubscriptionOutcome) -> (r:
        bool)
        requires
            old(self).inv(),
        ensures
            final(self).inv(),
            r == old(self)@.can_judge(subscription_id@, fire_index as int),
            final(self)@ == if r {
                old(self)@.with_metrics(
                    subscription_id@,
                    old(self)@.metrics[subscription_id@].judged(fire_index as int, outcome),
                )
            } else {
                old(self)@
            },
    {
        let ghost before = *self;
        if let Some(i) = self.metrics.slot(subscription_id) {
            let known = &self.metrics.entries[i].value;
            assert(known@.fires.len() == known.fire_log@.len());
            if fire_index < known.fire_log.len() {
                assert(known@.fires[fire_index as int] == known.fire_log@[fire_index as int]@);
                if known.fire_log[fire_index].outcome.is_none() {
                    let m = self.metrics.at_mut(i);
                    m.judge(fire_index, outcome);
                    proof {
                        let id = subscription_id@;
                        views_of_insert(before.metrics@, id, self.metrics@[id]);
                        assert(self.metrics@ == before.metrics@.insert(id, self.metrics@[id]));
                        assert(self@.metrics == before@.metrics.insert(id, self.metrics@[id]@));
                    }
                    return true;
                }
            }
        }
        false
    }

    /// Records a judgement for each fire of a subscription that has none; says how many.
    pub fn record_all_outcomes(&mut self, subscription_id: &SubscriptionId, outcome: SubscriptionOutcome) -> (r: usize)
        requires
            old(self).inv(),
        ensures
            final(self).inv(),
            if old(self)@.metrics.contains_key(subscription_id@) {
                &&& r == outcome_count(old(self)@.metrics[subscription_id@].fires, None)
                &&& final(self)@ == old(self)@.with_metrics(
                    subscription_id@,
                    old(self)@.metrics[subscription_id@].all_judged(outcome),
                )
            } else {
                r == 0 && final(self)@ == old(self)@
            },
    {
        let ghost before = *self;
        match self.metrics.slot(subscription_id) {
            Some(i) => {
                let m = self.metrics.at_mut(i);
                let count = m.judge_all(outcome);
                proof {
                    let id = subscription_id@;
                    views_of_insert(before.metrics@, id, self.metrics@[id]);
                    assert(self.metrics@ == before.metrics@.insert(id, self.metrics@[id]));
                    assert(self@.metrics == before@.metrics.insert(id, self.metrics@[id]@));
                }
                count
            },
            None => 0,
        }
    }

    fn note_miss(
        &mut self,
        subscription_id: &SubscriptionId,
        name: &str,
        missed_event_id: EventId,
        reason: Option<String>,
        now: Timestamp,
    ) -> (r: bool)
        requires
            old(self).inv(),
        ensures
            final(self).inv(),
            r == old(self)@.is_new_miss(subscription_id@, missed_event_id@),
            final(self)@ == old(self)@.with_miss(subscription_id@, name@, missed_event_id@, opt_chars(reason), now),
    {
        let ghost before = *self;
        let ghost id = subscription_id@;
        match self.metrics.slot(subscription_id) {
            Some(i) => {
                if self.metrics.entries[i].value.has_miss(&missed_event_id) {
                    return false;
                }
                let m = self.metrics.at_mut(i);
                m.miss(missed_event_id, reason, now);
            },
            None => {
                let mut m = SubscriptionMetrics::new(subscription_id.clone(), name.to_owned());
                m.miss(missed_event_id, reason, now);
                self.metrics.insert(subscription_id.clone(), m);
            },
        }
        proof {
            views_of_insert(before.metrics@, id, self.metrics@[id]);
            assert(self.metrics@ == before.metrics@.insert(id, self.metrics@[id]));
            assert(self@.metrics == before@.metrics.insert(id, self.metrics@[id]@));
        }
        true
    }

    /// Records that a subscription should have fired on an event; says whether that is new.
    /// A subscription that is not known yet becomes known, without a name.
    pub fn record_miss(
        &mut self,
        subscription_id: &SubscriptionId,
        missed_event_id: EventId,
        reason: Option<String>,
        now: Timestamp,
    ) -> (r: bool)
        requires
            old(self).inv(),
        ensures
            final(self).inv(),
            r == old(self)@.is_new_miss(subscription_id@, missed_event_id@),
            final(self)@ == old(self)@.with_miss(
                subscription_id@,
                Seq::empty(),
                missed_event_id@,
                opt_chars(reason),
                now,
            ),
    {
        proof {
            reveal_strlit("");
            assert(""@ =~= Seq::<char>::empty());
        }
        self.note_miss(subscription_id, "", missed_event_id, reason, now)
    }

    /// The metrics of a subscription.
    pub fn metrics(&self, id: &SubscriptionId) -> (r: Option<&SubscriptionMetrics>)
        requires
            self.inv(),
        ensures
            match r {
                Some(m) => self@.metrics.contains_key(id@) && m@ == self@.metrics[id@] && m@.sound(),
                None => !self@.metrics.contains_key(id@),
            },
    {
        self.metrics.get(id)
    }

    /// The number of subscriptions that are known.
    pub fn tracked_count(&self) -> (r: usize)
        requires
            self.inv(),
        ensures
            r == self@.metrics.len(),
            r == self@.order.len(),
    {
        proof {
            assert(self@.metrics.dom() =~= self.metrics@.dom());
        }
        self.metrics.len()
    }
}

/// How often an identifier stands in a list.
pub open spec fn times_listed(ids: Seq<Seq<char>>, id: Seq<char>) -> nat
    decreases ids.len(),
{
    if ids.len() == 0 {
        0
    } else {
        times_listed(ids.drop_last(), id) + if ids.last() == id {
            1nat
        } else {
            0nat
        }
    }
}

/// Whether the event at the position counts as a reaction of the subscription: where it is
/// known what it is a reaction of, only if that is the subscription; else in any case.
pub open spec fn is_credited(by: Seq<Option<Seq<char>>>, i: int, subscription: Seq<char>) -> bool {
    i < by.len() ==> by[i] == Some(subscription)
}

/// How many reactions of a subscription to an event there are: how often the events that
/// count as its reactions name the event as their cause. Where no producers are known, these
/// are all the events that the event caused.
pub open spec fn reactions_by(
    events: Seq<EventModel>,
    by: Seq<Option<Seq<char>>>,
    id: Seq<char>,
    subscription: Seq<char>,
) -> nat
    decreases events.len(),
{
    if events.len() == 0 {
        0
    } else {
        reactions_by(events.drop_last(), by, id, subscription) + if is_credited(by, events.len() - 1, subscription) {
            times_listed(events.last().caused_by, id)
        } else {
            0
        }
    }
}

/// The name under which an identifier is registered.
pub open spec fn registered_name(registry: Seq<SubscriptionModel>, id: Seq<char>) -> Seq<char> {
    match subscription_at(registry, id) {
        Some(i) => registry[i].name,
        None => Seq::empty(),
    }
}

/// The fires of subscriptions on an event of a cascade recorded, each with its own reactions.
pub open spec fn fires_recorded(
    state: TrackerModel,
    registry: Seq<SubscriptionModel>,
    asking: Seq<SubscriptionModel>,
    event: EventModel,
    events: Seq<EventModel>,
    by: Seq<Option<Seq<char>>>,
) -> TrackerModel
    decreases asking.len(),
{
    if asking.len() == 0 {
        state
    } else {
        let id = asking.last().id;
        fires_recorded(state, registry, asking.drop_last(), event, events, by).with_fire(
            id,
            registered_name(registry, id),
            event,
            reactions_by(events, by, event.id, id),
        )
    }
}

/// The fires on the first events of a cascade recorded.
pub open spec fn cascade_recorded(
    state: TrackerModel,
    registry: Seq<SubscriptionModel>,
    events: Seq<EventModel>,
    by: Seq<Option<Seq<char>>>,
    n: nat,
) -> TrackerModel
    decreases n,
{
    if n == 0 {
        state
    } else {
        let event = events[n - 1];
        fires_recorded(
            cascade_recorded(state, registry, events, by, (n - 1) as nat),
            registry,
            asking(registry, event.kind),
            event,
            events,
            by,
        )
    }
}

/// The positions of the events that name an event as their cause, as often as they name it.
spec fn children(events: Seq<EventModel>, id: Seq<char>) -> Seq<int>
    decreases events.len(),
{
    if events.len() == 0 {
        Seq::empty()
    } else {
        children(events.drop_last(), id) + Seq::new(
            times_listed(events.last().caused_by, id),
            |x: int| events.len() - 1,
        )
    }
}

/// How many of the positions are those of events that count as reactions of the subscription.
spec fn credits(positions: Seq<int>, by: Seq<Option<Seq<char>>>, subscription: Seq<char>) -> nat
    decreases positions.len(),
{
    if positions.len() == 0 {
        0
    } else {
        credits(positions.drop_last(), by, subscription) + if is_credited(by, positions.last(), subscription) {
            1nat
        } else {
            0nat
        }
    }
}

proof fn credits_of_repeated(positions: Seq<int>, p: int, n: nat, by: Seq<Option<Seq<char>>>, subscription: Seq<char>)
    ensures
        credits(positions + Seq::new(n, |x: int| p), by, subscription) == credits(positions, by, subscription)
            + if is_credited(by, p, subscription) {
            n
        } else {
            0
        },
    decreases n,
{
    let all = positions + Seq::new(n, |x: int| p);
    if n == 0 {
        assert(all =~= positions);
    } else {
        credits_of_repeated(positions, p, (n - 1) as nat, by, subscription);
        assert(all.drop_last() =~= positions + Seq::new((n - 1) as nat, |x: int| p));
    }
}

proof fn credits_of_children(
    events: Seq<EventModel>,
    by: Seq<Option<Seq<char>>>,
    id: Seq<char>,
    subscription: Seq<char>,
)
    ensures
        credits(children(events, id), by, subscription) == reactions_by(events, by, id, subscription),
    decreases events.len(),
{
    if events.len() > 0 {
        credits_of_children(events.drop_last(), by, id, subscription);
        credits_of_repeated(
            children(events.drop_last(), id),
            events.len() - 1,
            times_listed(events.last().caused_by, id),
            by,
            subscription,
        );
    }
}

/// The positions that a list holds.
spec fn positions(list: Seq<usize>) -> Seq<int> {
    list.map_values(|p: usize| p as int)
}

/// The positions that a table holds for an identifier.
spec fn listed(table: Map<Seq<char>, Vec<usize>>, id: Seq<char>) -> Seq<int> {
    if table.contains_key(id) {
        positions(table[id]@)
    } else {
        Seq::empty()
    }
}

fn add_child(table: &mut Table<Vec<usize>>, causes: &Vec<EventId>, position: usize)
    requires
        old(table).wf(),
    ensures
        final(table).wf(),
        forall|t: Seq<char>| #[trigger]
            listed(final(table)@, t) == listed(old(table)@, t) + Seq::new(
                times_listed(texts(causes@), t),
                |x: int| position as int,
            ),
{
    let ghost before = table@;
    let ghost all = texts(causes@);
    let mut i: usize = 0;
    proof {
        assert(all.take(0) =~= Seq::<Seq<char>>::empty());
        assert forall|t: Seq<char>| #[trigger] listed(table@, t) == listed(before, t) + Seq::new(
            times_listed(all.take(0), t),
            |x: int| position as int,
        ) by {
            assert(listed(before, t) + Seq::new(0, |x: int| position as int) =~= listed(before, t));
        }
    }
    while i < causes.len()
        invariant
            table.wf(),
            i <= causes@.len(),
            all == texts(causes@),
            forall|t: Seq<char>| #[trigger]
                listed(table@, t) == listed(before, t) + Seq::new(
                    times_listed(all.take(i as int), t),
                    |x: int| position as int,
                ),
        decreases causes@.len() - i,
    {
        let ghost now = table@;
        let ghost own = causes@[i as int]@;
        proof {
            assert(all.take(i + 1).drop_last() =~= all.take(i as int));
            assert(all.take(i + 1).last() == own);
        }
        match table.slot(&causes[i]) {
            Some(k) => {
                let list = table.at_mut(k);
                list.push(position);
            },
            None => {
                let mut list: Vec<usize> = Vec::new();
                list.push(position);
                table.insert(causes[i].clone(), list);
            },
        }
        proof {
            assert(listed(table@, own) =~= listed(now, own).push(position as int));
            assert forall|t: Seq<char>| #[trigger] listed(table@, t) == listed(before, t) + Seq::new(
                times_listed(all.take(i + 1), t),
                |x: int| position as int,
            ) by {
                assert(listed(now, t) == listed(before, t) + Seq::new(
                    times_listed(all.take(i as int), t),
                    |x: int| position as int,
                ));
                assert(listed(table@, t) =~= listed(before, t) + Seq::new(
                    times_listed(all.take(i + 1), t),
                    |x: int| position as int,
                ));
            }
        }
        i += 1;
    }
    assert(all.take(all.len() as int) =~= all);
}

fn index_children(events: &Vec<Event>) -> (r: Table<Vec<usize>>)
    ensures
        r.wf(),
        forall|t: Seq<char>| #[trigger] listed(r@, t) == children(event_models(events@), t),
{
    let ghost all = event_models(events@);
    let mut table: Table<Vec<usize>> = Table::new();
    let mut i: usize = 0;
    assert(all.take(0) =~= Seq::<EventModel>::empty());
    while i < events.len()
        invariant
            table.wf(),
            i <= events@.len(),
            all == event_models(events@),
            forall|t: Seq<char>| #[trigger] listed(table@, t) == children(all.take(i as int), t),
        decreases events@.len() - i,
    {
        let ghost now = table@;
        proof {
            assert(all.take(i + 1).drop_last() =~= all.take(i as int));
            assert(all.take(i + 1).last() == events@[i as int]@);
        }
        add_child(&mut table, &events[i].caused_by, i);
        proof {
            assert forall|t: Seq<char>| #[trigger] listed(table@, t) == children(all.take(i + 1), t) by {
                assert(listed(now, t) == children(all.take(i as int), t));
                assert(listed(table@, t) =~= children(all.take(i + 1), t));
            }
        }
        i += 1;
    }
    assert(all.take(all.len() as int) =~= all);
    table
}

fn count_credits(list: &Vec<usize>, produced_by: &Vec<Option<SubscriptionId>>, id: &SubscriptionId) -> (r: usize)
    ensures
        r == credits(positions(list@), producers(produced_by@), id@),
{
    let ghost all = positions(list@);
    let ghost by = producers(produced_by@);
    let mut count: usize = 0;
    let mut i: usize = 0;
    assert(all.take(0) =~= Seq::<int>::empty());
    while i < list.len()
        invariant
            i <= list@.len(),
            count <= i,
            all == positions(list@),
            by == producers(produced_by@),
            count == credits(all.take(i as int), by, id@),
        decreases list@.len() - i,
    {
        let p: usize = list[i];
        proof {
            assert(all.take(i + 1).drop_last() =~= all.take(i as int));
            assert(all.take(i + 1).last() == p);
        }
        let own: bool = if p < produced_by.len() {
            assert(by[p as int] == opt_text(produced_by@[p as int]));
            match &produced_by[p] {
                Some(producer) => producer.same(id),
                None => false,
            }
        } else {
            true
        };
        if own {
            count += 1;
        }
        i += 1;
    }
    assert(all.take(all.len() as int) =~= all);
    count
}

impl SubscriptionTracker {
    fn record_event(
        &mut self,
        event: &Event,
        registry: &SubscriptionRegistry,
        result: &CascadeResult,
        table: &Table<Vec<usize>>,
    )
        requires
            old(self).inv(),
            table.wf(),
            forall|t: Seq<char>| #[trigger] listed(table@, t) == children(event_models(result.events@), t),
        ensures
            final(self).inv(),
            final(self)@ == fires_recorded(
                old(self)@,
                registry@,
                asking(registry@, event.kind),
                event@,
                event_models(result.events@),
                producers(result.produced_by@),
            ),
    {
        let ghost before = self@;
        let ghost events = event_models(result.events@);
        let ghost by = producers(result.produced_by@);
        let matching = registry.matching_subscriptions(event);
        let ghost all = borrowed_subscriptions(matching@);
        let mut i: usize = 0;
        assert(all.take(0) =~= Seq::<SubscriptionModel>::empty());
        while i < matching.len()
            invariant
                self.inv(),
                table.wf(),
                forall|t: Seq<char>| #[trigger] listed(table@, t) == children(events, t),
                events == event_models(result.events@),
                by == producers(result.produced_by@),
                i <= matching@.len(),
                all == borrowed_subscriptions(matching@),
                self@ == fires_recorded(before, registry@, all.take(i as int), event@, events, by),
            decreases matching@.len() - i,
        {
            proof {
                assert(all.take(i + 1).drop_last() =~= all.take(i as int));
                assert(all.take(i + 1).last() == matching@[i as int]@);
                reveal_strlit("");
                assert(""@ =~= Seq::<char>::empty());
            }
            let name = match registry.get(&matching[i].id) {
                Some(subscription) => subscription.name.as_str(),
                None => "",
            };
            let reactions: usize = match table.get(&event.id) {
                Some(list) => count_credits(list, &result.produced_by, &matching[i].id),
                None => 0,
            };
            proof {
                assert(listed(table@, event.id@) == children(events, event.id@));
                credits_of_children(events, by, event.id@, matching@[i as int].id@);
            }
            self.record_fire(&matching[i].id, name, event, reactions);
            i += 1;
        }
        assert(all.take(all.len() as int) =~= all);
    }

    /// Records which subscriptions fired on the events of a cascade, as their filters have
    /// it, and how many reactions each produced. Where it is not known what an event is a
    /// reaction of, it counts for every subscription that fired on its cause.
    pub fn record_cascade(&mut self, result: &CascadeResult, registry: &SubscriptionRegistry)
        requires
            old(self).inv(),
        ensures
            final(self).inv(),
            final(self)@ == cascade_recorded(
                old(self)@,
                registry@,
                event_models(result.events@),
                producers(result.produced_by@),
                result.events@.len(),
            ),
    {
        let ghost before = self@;
        let ghost all = event_models(result.events@);
        let ghost by = producers(result.produced_by@);
        let table = index_children(&result.events);
        let mut i: usize = 0;
        while i < result.events.len()
            invariant
                self.inv(),
                table.wf(),
                i <= result.events@.len(),
                all == event_models(result.events@),
                by == producers(result.produced_by@),
                forall|t: Seq<char>| #[trigger] listed(table@, t) == children(all, t),
                self@ == cascade_recorded(before, registry@, all, by, i as nat),
            decreases result.events@.len() - i,
        {
            assert(all[i as int] == result.events@[i as int]@);
            self.record_event(&result.events[i], registry, result, &table);
            i += 1;
        }
    }
}

/// The events that an event brought about, as far as the log knows them.
pub open spec fn brought_about(log: LogModel, id: Seq<char>) -> Seq<EventModel> {
    if log.lost(id) {
        Seq::empty()
    } else {
        choose|found: Seq<EventModel>| descendants(log.events, id, found)
    }
}

/// The first events on one of the nodes, at most so many.
pub open spec fn first_on_nodes(events: Seq<EventModel>, nodes: Seq<Seq<char>>, limit: nat) -> Seq<EventModel>
    decreases events.len(),
{
    if events.len() == 0 {
        Seq::empty()
    } else {
        let before = first_on_nodes(events.drop_last(), nodes, limit);
        if before.len() < limit && on_nodes(events.last(), nodes) {
            before.push(events.last())
        } else {
            before
        }
    }
}

/// Whether an event is about one of the nodes.
pub open spec fn on_nodes(event: EventModel, nodes: Seq<Seq<char>>) -> bool {
    match event.kind.target() {
        Some(id) => nodes.contains(id),
        None => false,
    }
}

/// What led to an event, the event itself, and what it brought about.
pub open spec fn around(log: LogModel, id: Seq<char>) -> Seq<EventModel> {
    causes(log.events, id, log.events.len()).reverse() + match last_position(log.events, id) {
        Some(i) => seq![log.events[i]],
        None => Seq::empty(),
    } + brought_about(log, id)
}

/// How many of the latest events on the nodes of an anomaly are looked at.
pub const LOOKED_AT: usize = 50;

/// The events that belong to an anomaly: those around its trigger, or, where there are
/// none, the latest on its nodes.
pub open spec fn anomaly_events(anomaly: AnomalyModel, log: LogModel) -> Seq<EventModel> {
    let found = match anomaly.trigger_event {
        Some(id) => around(log, id),
        None => Seq::empty(),
    };
    if found.len() > 0 {
        found
    } else {
        first_on_nodes(log.events.reverse(), anomaly.affected_nodes, LOOKED_AT as nat)
    }
}

proof fn appended_models(one: Seq<&Event>, other: Seq<&Event>)
    ensures
        borrowed_models(one + other) == borrowed_models(one) + borrowed_models(other),
{
    assert(borrowed_models(one + other) =~= borrowed_models(one) + borrowed_models(other));
}

fn collect_recent<'a>(nodes: &Vec<Id>, event_log: &'a EventLog) -> (r: Vec<&'a Event>)
    ensures
        borrowed_models(r@) == first_on_nodes(event_log@.events.reverse(), texts(nodes@), LOOKED_AT as nat),
{
    let latest = event_log.iter_rev();
    let ghost all = event_log@.events.reverse();
    let mut r: Vec<&'a Event> = Vec::new();
    let mut i: usize = 0;
    assert(all.take(0) =~= Seq::<EventModel>::empty());
    assert(borrowed_models(r@) =~= Seq::<EventModel>::empty());
    while i < latest.len() && r.len() < LOOKED_AT
        invariant
            i <= latest@.len(),
            all == borrowed_models(latest@),
            borrowed_models(r@) == first_on_nodes(all.take(i as int), texts(nodes@), LOOKED_AT as nat),
        decreases latest@.len() - i,
    {
        let event: &'a Event = latest[i];
        proof {
            assert(all.take(i + 1).drop_last() =~= all.take(i as int));
            assert(all.take(i + 1).last() == event@);
        }
        let wanted = match event.kind.target_node() {
            Some(id) => holds_id(nodes, id),
            None => false,
        };
        if wanted {
            let ghost before = borrowed_models(r@);
            r.push(event);
            assert(borrowed_models(r@) =~= before.push(event@));
        }
        i += 1;
    }
    proof {
        if i < latest@.len() {
            full_stays(all, texts(nodes@), LOOKED_AT as nat, i as int);
        } else {
            assert(all.take(i as int) =~= all);
        }
    }
    r
}

proof fn full_stays(events: Seq<EventModel>, nodes: Seq<Seq<char>>, limit: nat, n: int)
    requires
        0 <= n <= events.len(),
        first_on_nodes(events.take(n), nodes, limit).len() >= limit,
    ensures
        first_on_nodes(events, nodes, limit) == first_on_nodes(events.take(n), nodes, limit),
    decreases events.len() - n,
{
    if n < events.len() {
        assert(events.take(n + 1).drop_last() =~= events.take(n));
        full_stays(events, nodes, limit, n + 1);
    } else {
        assert(events.take(n) =~= events);
    }
}

impl SubscriptionTracker {
    fn collect_anomaly_events<'a>(&self, anomaly: &Anomaly, event_log: &'a EventLog) -> (r: Vec<&'a Event>)
        requires
            event_log.inv(),
        ensures
            borrowed_models(r@) == anomaly_events(anomaly@, event_log@),
    {
        let ghost events = event_log@.events;
        if let Some(trigger_id) = &anomaly.trigger_event {
            let mut found = event_log.root_cause(trigger_id);
            let ghost chain = borrowed_models(found@);
            if let Some(trigger) = event_log.get(trigger_id) {
                found.push(trigger);
                assert(borrowed_models(found@) =~= chain + seq![trigger@]);
            } else {
                assert(chain + Seq::<EventModel>::empty() =~= chain);
            }
            let mut forward = event_log.causal_chain(trigger_id);
            proof {
                let one = borrowed_models(forward@);
                if event_log@.lost(trigger_id@) {
                    assert(one =~= Seq::<EventModel>::empty());
                } else {
                    law_descendants_are_unique(events, trigger_id@, one, brought_about(event_log@, trigger_id@));
                }
                appended_models(found@, forward@);
            }
            found.append(&mut forward);
            assert(borrowed_models(found@) == around(event_log@, trigger_id@));
            if found.len() > 0 {
                return found;
            }
        }
        collect_recent(&anomaly.affected_nodes, event_log)
    }
}

/// Why a subscription is said to have missed an event.
pub open spec fn miss_text(anomaly: AnomalyModel, name: Seq<char>, event: Seq<char>) -> Seq<char> {
    "Autonomous: anomaly '"@ + anomaly.description + "' (severity "@ + fixed_text(anomaly.severity, 2)
        + ") detected, but subscription '"@ + name + "' did not fire on event "@ + event
}

/// A tracker and the number of misses found.
pub struct Findings {
    pub tracker: TrackerModel,
    pub misses: nat,
}

/// Whether the tracker knows of a fire of the subscription on one of the events.
pub open spec fn did_fire(state: TrackerModel, id: Seq<char>, events: Seq<EventModel>) -> bool {
    state.metrics.contains_key(id) && exists|i: int|
        0 <= i < events.len() && fired_on(state.metrics[id].fires, (#[trigger] events[i]).id)
}

/// Misses of an event found: of the subscriptions that ask for it and fired on none of the
/// events of the anomaly.
pub open spec fn event_misses(
    state: Findings,
    asking: Seq<SubscriptionModel>,
    event: EventModel,
    all: Seq<EventModel>,
    anomaly: AnomalyModel,
    now: Timestamp,
) -> Findings
    decreases asking.len(),
{
    if asking.len() == 0 {
        state
    } else {
        let before = event_misses(state, asking.drop_last(), event, all, anomaly, now);
        let s = asking.last();
        if did_fire(before.tracker, s.id, all) || !before.tracker.is_new_miss(s.id, event.id) {
            before
        } else {
            Findings {
                tracker: before.tracker.with_miss(
                    s.id,
                    s.name,
                    event.id,
                    Some(miss_text(anomaly, s.name, event.id)),
                    now,
                ),
                misses: before.misses + 1,
            }
        }
    }
}

/// Misses of events found, which are among the events of the anomaly.
pub open spec fn events_misses(
    state: Findings,
    registry: Seq<SubscriptionModel>,
    events: Seq<EventModel>,
    all: Seq<EventModel>,
    anomaly: AnomalyModel,
    now: Timestamp,
) -> Findings
    decreases events.len(),
{
    if events.len() == 0 {
        state
    } else {
        event_misses(
            events_misses(state, registry, events.drop_last(), all, anomaly, now),
            asking(registry, events.last().kind),
            events.last(),
            all,
            anomaly,
            now,
        )
    }
}

/// Misses that come with anomalies found, for those that are severe enough.
pub open spec fn anomalies_misses(
    state: Findings,
    registry: Seq<SubscriptionModel>,
    log: LogModel,
    anomalies: Seq<AnomalyModel>,
    min_severity: Number,
    now: Timestamp,
) -> Findings
    decreases anomalies.len(),
{
    if anomalies.len() == 0 {
        state
    } else {
        let before = anomalies_misses(
            state,
            registry,
            log,
            anomalies.drop_last(),
            min_severity,
            now,
        );
        if anomalies.last().severity.below(min_severity) {
            before
        } else {
            events_misses(
                before,
                registry,
                anomaly_events(anomalies.last(), log),
                anomaly_events(anomalies.last(), log),
                anomalies.last(),
                now,
            )
        }
    }
}

impl SubscriptionTracker {
    fn has_fired(&self, id: &SubscriptionId, events: &Vec<&Event>) -> (r: bool)
        requires
            self.inv(),
        ensures
            r == did_fire(self@, id@, borrowed_models(events@)),
    {
        let ghost all = borrowed_models(events@);
        let metrics = match self.metrics(id) {
            Some(m) => m,
            None => {
                return false;
            },
        };
        let mut i: usize = 0;
        while i < events.len()
            invariant
                i <= events@.len(),
                all == borrowed_models(events@),
                self@.metrics.contains_key(id@),
                metrics@ == self@.metrics[id@],
                forall|j: int| 0 <= j < i ==> !fired_on(metrics@.fires, (#[trigger] all[j]).id),
            decreases events@.len() - i,
        {
            assert(all[i as int] == events@[i as int]@);
            if metrics.has_fire(&events[i].id) {
                return true;
            }
            i += 1;
        }
        false
    }

    fn correlate_event(
        &mut self,
        event: &Event,
        relevant_events: &Vec<&Event>,
        registry: &SubscriptionRegistry,
        anomaly: &Anomaly,
        now: Timestamp,
        misses: &mut usize,
        Ghost(before): Ghost<Findings>,
    )
        requires
            old(self).inv(),
            before.tracker == old(self)@,
            *old(misses) == capped(before.misses),
        ensures
            final(self).inv(),
            ({
                let r = event_misses(
                    before,
                    asking(registry@, event.kind),
                    event@,
                    borrowed_models(relevant_events@),
                    anomaly@,
                    now,
                );
                final(self)@ == r.tracker && *final(misses) == capped(r.misses)
            }),
    {
        let would_match = registry.matching_subscriptions(event);
        let ghost all = borrowed_subscriptions(would_match@);
        let mut i: usize = 0;
        assert(all.take(0) =~= Seq::<SubscriptionModel>::empty());
        while i < would_match.len()
            invariant
                self.inv(),
                i <= would_match@.len(),
                all == borrowed_subscriptions(would_match@),
                ({
                    let r = event_misses(
                        before,
                        all.take(i as int),
                        event@,
                        borrowed_models(relevant_events@),
                        anomaly@,
                        now,
                    );
                    self@ == r.tracker && *misses == capped(r.misses)
                }),
            decreases would_match@.len() - i,
        {
            let sub: &Subscription = would_match[i];
            proof {
                assert(all.take(i + 1).drop_last() =~= all.take(i as int));
                assert(all.take(i + 1).last() == sub@);
            }
            if !self.has_fired(&sub.id, relevant_events) {
                let mut reason = "Autonomous: anomaly '".to_owned();
                reason.append(anomaly.description.as_str());
                reason.append("' (severity ");
                reason.append(fixed(anomaly.severity, 2).as_str());
                reason.append(") detected, but subscription '");
                reason.append(sub.name.as_str());
                reason.append("' did not fire on event ");
                reason.append(event.id.as_str());
                if self.note_miss(&sub.id, sub.name.as_str(), event.id.clone(), Some(reason), now) {
                    *misses = misses.saturating_add(1);
                }
            }
            i += 1;
        }
        assert(all.take(all.len() as int) =~= all);
    }

    fn correlate_anomaly(
        &mut self,
        anomaly: &Anomaly,
        event_log: &EventLog,
        registry: &SubscriptionRegistry,
        now: Timestamp,
        misses: &mut usize,
        Ghost(before): Ghost<Findings>,
    )
        requires
            old(self).inv(),
            event_log.inv(),
            before.tracker == old(self)@,
            *old(misses) == capped(before.misses),
        ensures
            final(self).inv(),
            ({
                let r = events_misses(
                    before,
                    registry@,
                    anomaly_events(anomaly@, event_log@),
                    anomaly_events(anomaly@, event_log@),
                    anomaly@,
                    now,
                );
                final(self)@ == r.tracker && *final(misses) == capped(r.misses)
            }),
    {
        let relevant_events = self.collect_anomaly_events(anomaly, event_log);
        let ghost all = anomaly_events(anomaly@, event_log@);
        let mut i: usize = 0;
        assert(all.take(0) =~= Seq::<EventModel>::empty());
        while i < relevant_events.len()
            invariant
                self.inv(),
                i <= relevant_events@.len(),
                all == borrowed_models(relevant_events@),
                ({
                    let r = events_misses(before, registry@, all.take(i as int), all, anomaly@, now);
                    self@ == r.tracker && *misses == capped(r.misses)
                }),
            decreases relevant_events@.len() - i,
        {
            let ghost so_far = events_misses(before, registry@, all.take(i as int), all, anomaly@, now);
            proof {
                assert(all.take(i + 1).drop_last() =~= all.take(i as int));
                assert(all.take(i + 1).last() == relevant_events@[i as int]@);
            }
            self.correlate_event(relevant_events[i], &relevant_events, registry, anomaly, now, misses, Ghost(so_far));
            i += 1;
        }
        assert(all.take(all.len() as int) =~= all);
    }

    /// Finds what subscriptions missed: where an anomaly is severe enough, every
    /// subscription that asks for some of its events and fired on none of them missed those
    /// that it asks for. Says how many misses are new.
    pub fn correlate_anomalies(
        &mut self,
        anomalies: &Vec<Anomaly>,
        event_log: &EventLog,
        registry: &SubscriptionRegistry,
        min_severity: Number,
        now: Timestamp,
    ) -> (r: usize)
        requires
            old(self).inv(),
            event_log.inv(),
        ensures
            final(self).inv(),
            ({
                let found = anomalies_misses(
                    Findings { tracker: old(self)@, misses: 0 },
                    registry@,
                    event_log@,
                    anomaly_models(anomalies@),
                    min_severity,
                    now,
                );
                final(self)@ == found.tracker && r == capped(found.misses)
            }),
    {
        let ghost start = Findings { tracker: self@, misses: 0 };
        let mut total_misses: usize = 0;
        let ghost all = anomaly_models(anomalies@);
        let mut k: usize = 0;
        assert(all.take(0) =~= Seq::<AnomalyModel>::empty());
        while k < anomalies.len()
            invariant
                self.inv(),
                event_log.inv(),
                k <= anomalies@.len(),
                all == anomaly_models(anomalies@),
                ({
                    let found = anomalies_misses(
                        start,
                        registry@,
                        event_log@,
                        all.take(k as int),
                        min_severity,
                        now,
                    );
                    self@ == found.tracker && total_misses == capped(found.misses)
                }),
            decreases anomalies@.len() - k,
        {
            let ghost so_far = anomalies_misses(
                start,
                registry@,
                event_log@,
                all.take(k as int),
                min_severity,
                now,
            );
            proof {
                assert(all.take(k + 1).drop_last() =~= all.take(k as int));
                assert(all.take(k + 1).last() == anomalies@[k as int]@);
            }
            if !anomalies[k].severity.lt(min_severity) {
                self.correlate_anomaly(&anomalies[k], event_log, registry, now, &mut total_misses, Ghost(so_far));
            }
            k += 1;
        }
        assert(all.take(all.len() as int) =~= all);
        total_misses
    }
}

/// The metrics of the subscriptions of a list.
pub open spec fn metrics_of(state: TrackerModel, ids: Seq<Seq<char>>) -> Seq<MetricsModel> {
    ids.map_values(|t: Seq<char>| state.metrics[t])
}

/// Where metrics with the rate of false alarms belong: behind the last ones whose rate is
/// not lower.
pub open spec fn rank(list: Seq<MetricsModel>, rate: Number) -> int
    decreases list.len(),
{
    if list.len() == 0 {
        0
    } else if list.last().rate_of()->0.below(rate) {
        rank(list.drop_last(), rate)
    } else {
        list.len() as int
    }
}

/// The metrics for which there are judgements, those with more false alarms first; of those
/// with the same rate, the one known earlier first.
pub open spec fn by_rate(list: Seq<MetricsModel>) -> Seq<MetricsModel>
    decreases list.len(),
{
    if list.len() == 0 {
        Seq::empty()
    } else {
        let before = by_rate(list.drop_last());
        match list.last().rate_of() {
            Some(rate) => before.insert(rank(before, rate), list.last()),
            None => before,
        }
    }
}

/// Higher rates of false alarms stand first.
pub open spec fn rates_fall(list: Seq<MetricsModel>) -> bool {
    &&& forall|i: int| 0 <= i < list.len() ==> (#[trigger] list[i]).rate_of() is Some
    &&& forall|i: int, j: int|
        0 <= i < j < list.len() ==> !(#[trigger] list[i]).rate_of()->0.below((#[trigger] list[j]).rate_of()->0)
}

proof fn rank_bounds(list: Seq<MetricsModel>, rate: Number)
    ensures
        0 <= rank(list, rate) <= list.len(),
        forall|i: int| rank(list, rate) <= i < list.len() ==> (#[trigger] list[i]).rate_of()->0.below(rate),
        rank(list, rate) > 0 ==> !list[rank(list, rate) - 1].rate_of()->0.below(rate),
    decreases list.len(),
{
    if list.len() > 0 && list.last().rate_of()->0.below(rate) {
        let rest = list.drop_last();
        rank_bounds(rest, rate);
        assert forall|i: int| rank(list, rate) <= i < list.len() implies (#[trigger] list[i]).rate_of()->0.below(rate) by {
            if i < rest.len() {
                assert(rest[i] == list[i]);
            }
        }
    }
}

proof fn inserted_rates_fall(before: Seq<MetricsModel>, m: MetricsModel, rate: Number)
    requires
        rates_fall(before),
        forall|i: int| 0 <= i < before.len() ==> !(#[trigger] before[i]).rate_of()->0.nan(),
        m.rate_of() == Some(rate),
        !rate.nan(),
    ensures
        rates_fall(before.insert(rank(before, rate), m)),
{
    rank_bounds(before, rate);
    let k = rank(before, rate);
    let all = before.insert(k, m);
    assert forall|i: int| 0 <= i < all.len() implies (#[trigger] all[i]).rate_of() is Some by {
        if i < k {
            assert(all[i] == before[i]);
        } else if i > k {
            assert(all[i] == before[i - 1]);
        }
    }
    assert forall|i: int, j: int| 0 <= i < j < all.len() implies !(#[trigger] all[i]).rate_of()->0.below(
        (#[trigger] all[j]).rate_of()->0,
    ) by {
        if j < k {
            assert(all[i] == before[i] && all[j] == before[j]);
        } else if i > k {
            assert(all[i] == before[i - 1] && all[j] == before[j - 1]);
        } else if i == k {
            assert(all[j] == before[j - 1]);
        } else {
            assert(all[i] == before[i]);
            if i < k - 1 {
                assert(!before[i].rate_of()->0.below(before[k - 1].rate_of()->0));
            }
            if j > k {
                assert(all[j] == before[j - 1]);
            }
        }
    }
}

proof fn rated_are_listed(list: Seq<MetricsModel>, m: MetricsModel)
    ensures
        by_rate(list).contains(m) <==> list.contains(m) && m.rate_of() is Some,
    decreases list.len(),
{
    if list.len() > 0 {
        let rest = list.drop_last();
        rated_are_listed(rest, m);
        let before = by_rate(rest);
        let all = by_rate(list);
        let last = list.last();
        assert(list.contains(m) <==> rest.contains(m) || m == last) by {
            if list.contains(m) {
                let i = list.index_of(m);
                if i < rest.len() {
                    assert(rest[i] == m);
                }
            }
            if rest.contains(m) {
                let i = rest.index_of(m);
                assert(list[i] == m);
            }
            assert(list[list.len() - 1] == last);
        }
        if let Some(rate) = last.rate_of() {
            rank_bounds(before, rate);
            let k = rank(before, rate);
            assert(all[k] == last);
            if all.contains(m) && m != last {
                let i = all.index_of(m);
                if i < k {
                    assert(before[i] == m);
                } else {
                    assert(before[i - 1] == m);
                }
            }
            if before.contains(m) {
                let i = before.index_of(m);
                if i < k {
                    assert(all[i] == m);
                } else {
                    assert(all[i + 1] == m);
                }
            }
        }
    }
}

impl SubscriptionTracker {
    /// The metrics of all subscriptions that are known, in the order in which they became
    /// known.
    pub fn all_metrics(&self) -> (r: Vec<&SubscriptionMetrics>)
        requires
            self.inv(),
        ensures
            views(r@) == metrics_of(self@, self@.order),
    {
        let mut r: Vec<&SubscriptionMetrics> = Vec::new();
        let mut i: usize = 0;
        while i < self.metrics.entries.len()
            invariant
                self.inv(),
                i <= self.metrics.entries@.len(),
                r@.len() == i,
                forall|j: int| 0 <= j < i ==> *(#[trigger] r@[j]) == self.metrics.entries@[j].value,
            decreases self.metrics.entries@.len() - i,
        {
            r.push(&self.metrics.entries[i].value);
            i += 1;
        }
        proof {
            let wanted = metrics_of(self@, self@.order);
            assert forall|j: int| 0 <= j < r@.len() implies views(r@)[j] == #[trigger] wanted[j] by {
                assert(self.metrics.slots@.contains_key(self.metrics.entries@[j].id@));
            }
            assert(views(r@) =~= wanted);
        }
        r
    }

    /// The metrics for which there are judgements, those with more false alarms first.
    pub fn worst_performers(&self) -> (r: Vec<&SubscriptionMetrics>)
        requires
            self.inv(),
        ensures
            views(r@) == by_rate(metrics_of(self@, self@.order)),
            rates_fall(views(r@)),
            forall|m: MetricsModel| #[trigger]
                views(r@).contains(m) <==> metrics_of(self@, self@.order).contains(m) && m.rate_of() is Some,
    {
        let known = self.all_metrics();
        let ghost all = views(known@);
        let mut r: Vec<&SubscriptionMetrics> = Vec::new();
        let mut i: usize = 0;
        assert(all.take(0) =~= Seq::<MetricsModel>::empty());
        assert(views(r@) =~= Seq::<MetricsModel>::empty());
        while i < known.len()
            invariant
                i <= known@.len(),
                all == views(known@),
                views(r@) == by_rate(all.take(i as int)),
                rates_fall(views(r@)),
                forall|j: int| 0 <= j < r@.len() ==> !(#[trigger] views(r@)[j]).rate_of()->0.nan(),
            decreases known@.len() - i,
        {
            proof {
                assert(all.take(i + 1).drop_last() =~= all.take(i as int));
                assert(all.take(i + 1).last() == known@[i as int]@);
            }
            if let Some(rate) = known[i].false_positive_rate() {
                let ghost before = views(r@);
                let mut at: usize = r.len();
                let mut done: bool = false;
                assert(before.take(at as int) =~= before);
                while at > 0 && !done
                    invariant
                        at <= r@.len(),
                        before == views(r@),
                        forall|j: int| 0 <= j < r@.len() ==> (#[trigger] before[j]).rate_of() is Some,
                        rank(before, rate) == rank(before.take(at as int), rate),
                        done ==> at > 0 && rank(before, rate) == at,
                    decreases at + (if done {
                        0int
                    } else {
                        1int
                    }),
                {
                    proof {
                        assert(before.take(at as int).drop_last() =~= before.take(at - 1));
                        assert(before.take(at as int).last() == r@[at - 1]@);
                        assert(before[at - 1] == r@[at - 1]@);
                    }
                    let lower = match r[at - 1].false_positive_rate() {
                        Some(other) => other.lt(rate),
                        None => true,
                    };
                    if lower {
                        at -= 1;
                    } else {
                        done = true;
                    }
                }
                let ghost added = known@[i as int]@;
                r.insert(at, known[i]);
                proof {
                    assert(views(r@) =~= before.insert(at as int, added));
                    rank_bounds(before, rate);
                    inserted_rates_fall(before, added, rate);
                    let list = before.insert(at as int, added);
                    assert forall|j: int| 0 <= j < r@.len() implies !(#[trigger] views(r@)[j]).rate_of()->0.nan() by {
                        assert(views(r@)[j] == list[j]);
                        if j < at {
                            assert(list[j] == before[j]);
                        } else if j > at {
                            assert(list[j] == before[j - 1]);
                        }
                    }
                }
            }
            i += 1;
        }
        proof {
            assert(all.take(all.len() as int) =~= all);
            assert forall|m: MetricsModel| #[trigger] views(r@).contains(m) <==> all.contains(m) && m.rate_of() is Some by {
                rated_are_listed(all, m);
            }
        }
        r
    }
}

/// What a proposal says of a subscription.
pub open spec fn proposal_text(m: MetricsModel) -> Seq<char> {
    "Subscription '"@ + m.subscription_name + "' has a "@ + percent_text(m.rate_of()->0, 0)
        + "% false positive rate ("@ + decimal_text(m.false_positives) + " false / "@ + decimal_text(m.judgements())
        + " total judged). Consider adjusting its filter or threshold."@
}

/// The recall in per cent, if it is known.
pub open spec fn recall_text(m: MetricsModel) -> Seq<char> {
    match m.recall_of() {
        Some(x) => percent_text(x, 1) + "%"@,
        None => "N/A"@,
    }
}

/// The numbers behind a proposal.
pub open spec fn rationale_text(m: MetricsModel) -> Seq<char> {
    "Precision: "@ + percent_text(m.precision_of()->0, 1) + "%. Recall: "@ + recall_text(m) + ". "@
        + decimal_text(m.total_fires) + " fires, "@ + decimal_text(m.true_positives) + " true positives, "@
        + decimal_text(m.false_positives) + " false positives, "@ + decimal_text(m.false_negatives)
        + " false negatives, "@ + decimal_text(m.auto_accepted) + " auto-accepted, "@ + decimal_text(
        outcome_count(m.fires, None),
    ) + " pending."@
}

/// The proposal for a subscription that does badly.
pub open spec fn proposal_for(m: MetricsModel, now: Timestamp) -> ProposalModel {
    ProposalModel {
        subscription_id: m.subscription_id,
        description: proposal_text(m),
        rationale: rationale_text(m),
        proposed_filter: None,
        estimated_precision: m.precision_of(),
        fires_prevented: m.false_positives,
        true_positives_lost: 0,
        status: ProposalStatus::Proposed,
        proposed_at: now,
        resolved_at: None,
    }
}

/// Whether a proposal for the subscription waits for an answer.
pub open spec fn has_pending(proposals: Seq<ProposalModel>, id: Seq<char>) -> bool {
    exists|i: int|
        0 <= i < proposals.len() && (#[trigger] proposals[i]).subscription_id == id && proposals[i].status
            == ProposalStatus::Proposed
}

/// Whether a subscription does badly: it fired often enough, and more of what was judged than
/// the threshold were false alarms.
pub open spec fn does_badly(state: TrackerModel, m: MetricsModel) -> bool {
    m.total_fires >= state.min_fires && match m.rate_of() {
        Some(rate) => state.threshold.below(rate),
        None => false,
    }
}

/// The proposals for those of the subscriptions that do badly and for which none waits.
pub open spec fn proposals_for(state: TrackerModel, ids: Seq<Seq<char>>, now: Timestamp) -> Seq<ProposalModel>
    decreases ids.len(),
{
    if ids.len() == 0 {
        Seq::empty()
    } else {
        let before = proposals_for(state, ids.drop_last(), now);
        let m = state.metrics[ids.last()];
        if does_badly(state, m) && !has_pending(state.proposals, m.subscription_id) {
            before.push(proposal_for(m, now))
        } else {
            before
        }
    }
}

fn propose(m: &SubscriptionMetrics, now: Timestamp) -> (r: MutationProposal)
    requires
        m@.sound(),
        m@.rate_of() is Some,
    ensures
        r@ == proposal_for(m@, now),
{
    reveal(MetricsModel::rate_of);
    let precision = m.precision();
    let rate = m.false_positive_rate();
    let mut description = "Subscription '".to_owned();
    let mut rationale = "Precision: ".to_owned();
    if let (Some(p), Some(f)) = (precision, rate) {
        description.append(m.subscription_name.as_str());
        description.append("' has a ");
        description.append(percent(f, 0).as_str());
        description.append("% false positive rate (");
        description.append(decimal(m.false_positives).as_str());
        description.append(" false / ");
        description.append(decimal(m.true_positives.saturating_add(m.false_positives)).as_str());
        description.append(" total judged). Consider adjusting its filter or threshold.");
        let recall = match m.recall() {
            Some(x) => {
                let mut shown = percent(x, 1);
                shown.append("%");
                shown
            },
            None => "N/A".to_owned(),
        };
        rationale.append(percent(p, 1).as_str());
        rationale.append("%. Recall: ");
        rationale.append(recall.as_str());
        rationale.append(". ");
        rationale.append(decimal(m.total_fires).as_str());
        rationale.append(" fires, ");
        rationale.append(decimal(m.true_positives).as_str());
        rationale.append(" true positives, ");
        rationale.append(decimal(m.false_positives).as_str());
        rationale.append(" false positives, ");
        rationale.append(decimal(m.false_negatives).as_str());
        rationale.append(" false negatives, ");
        rationale.append(decimal(m.auto_accepted).as_str());
        rationale.append(" auto-accepted, ");
        rationale.append(decimal(m.pending_outcomes()).as_str());
        rationale.append(" pending.");
    }
    MutationProposal {
        subscription_id: m.subscription_id.clone(),
        description,
        rationale,
        proposed_filter: None,
        estimated_precision: precision,
        fires_prevented: m.false_positives,
        true_positives_lost: 0,
        status: ProposalStatus::Proposed,
        proposed_at: now,
        resolved_at: None,
    }
}

/// A proposal answered or carried out.
pub open spec fn resolved(state: TrackerModel, index: int, status: ProposalStatus, now: Timestamp) -> TrackerModel {
    TrackerModel {
        proposals: state.proposals.update(
            index,
            (ProposalModel { status, resolved_at: Some(now), ..state.proposals[index] }),
        ),
        ..state
    }
}

/// Whether there is a proposal in the state.
pub open spec fn stands_at(state: TrackerModel, index: int, status: ProposalStatus) -> bool {
    0 <= index < state.proposals.len() && state.proposals[index].status == status
}

/// Whether a proposal can be carried out: it is approved, says which filter to set, and its
/// subscription is registered.
pub open spec fn can_apply(state: TrackerModel, index: int, registry: Seq<SubscriptionModel>) -> bool {
    &&& stands_at(state, index, ProposalStatus::Approved)
    &&& state.proposals[index].proposed_filter is Some
    &&& subscription_at(registry, state.proposals[index].subscription_id) is Some
}

impl SubscriptionTracker {
    fn waits(&self, id: &SubscriptionId) -> (r: bool)
        ensures
            r == has_pending(self@.proposals, id@),
    {
        let mut i: usize = 0;
        while i < self.proposals.len()
            invariant
                i <= self.proposals@.len(),
                forall|j: int|
                    0 <= j < i ==> !((#[trigger] self@.proposals[j]).subscription_id == id@
                        && self@.proposals[j].status == ProposalStatus::Proposed),
            decreases self.proposals@.len() - i,
        {
            assert(self@.proposals[i as int] == self.proposals@[i as int]@);
            if self.proposals[i].subscription_id.same(id) && self.proposals[i].status == ProposalStatus::Proposed {
                return true;
            }
            i += 1;
        }
        false
    }

    /// Makes a proposal for each subscription that does badly and for which none waits, and
    /// gives the new ones.
    pub fn generate_proposals(&mut self, now: Timestamp) -> (r: Vec<&MutationProposal>)
        requires
            old(self).inv(),
        ensures
            final(self).inv(),
            final(self)@ == (TrackerModel {
                proposals: old(self)@.proposals + proposals_for(old(self)@, old(self)@.order, now),
                ..old(self)@
            }),
            views(r@) == proposals_for(old(self)@, old(self)@.order, now),
    {
        let ghost before = *self;
        let ghost ids = self@.order;
        let mut new_proposals: Vec<MutationProposal> = Vec::new();
        let mut i: usize = 0;
        assert(ids.take(0) =~= Seq::<Seq<char>>::empty());
        assert(proposal_models(new_proposals@) =~= Seq::<ProposalModel>::empty());
        while i < self.metrics.entries.len()
            invariant
                self.inv(),
                *self == before,
                ids == before@.order,
                i <= self.metrics.entries@.len(),
                proposal_models(new_proposals@) == proposals_for(before@, ids.take(i as int), now),
            decreases self.metrics.entries@.len() - i,
        {
            let m = &self.metrics.entries[i].value;
            proof {
                assert(ids.take(i + 1).drop_last() =~= ids.take(i as int));
                assert(ids.take(i + 1).last() == self.metrics.entries@[i as int].id@);
                assert(self.metrics.slots@.contains_key(self.metrics.entries@[i as int].id@));
                assert(self.metrics@.contains_key(self.metrics.entries@[i as int].id@));
                assert(before@.metrics[ids[i as int]] == m@);
            }
            if m.total_fires >= self.min_fires_for_proposal {
                if let Some(rate) = m.false_positive_rate() {
                    if self.fp_rate_threshold.lt(rate) && !self.waits(&m.subscription_id) {
                        let ghost so_far = proposal_models(new_proposals@);
                        let proposal = propose(m, now);
                        new_proposals.push(proposal);
                        assert(proposal_models(new_proposals@) =~= so_far.push(proposal_for(m@, now)));
                    }
                }
            }
            i += 1;
        }
        assert(ids.take(ids.len() as int) =~= ids);
        let start: usize = self.proposals.len();
        let ghost new = proposal_models(new_proposals@);
        self.proposals.append(&mut new_proposals);
        assert(self@.proposals =~= before@.proposals + new);
        let mut r: Vec<&MutationProposal> = Vec::new();
        let mut k: usize = start;
        while k < self.proposals.len()
            invariant
                start <= k <= self.proposals@.len(),
                r@.len() == k - start,
                forall|j: int| 0 <= j < r@.len() ==> *(#[trigger] r@[j]) == self.proposals@[start + j],
            decreases self.proposals@.len() - k,
        {
            r.push(&self.proposals[k]);
            k += 1;
        }
        proof {
            assert forall|j: int| 0 <= j < r@.len() implies #[trigger] views(r@)[j] == new[j] by {
                assert(self@.proposals[start + j] == self.proposals@[start + j]@);
            }
            assert(views(r@) =~= new);
        }
        r
    }

    /// Approves a proposal that waits; says whether it did.
    pub fn approve_proposal(&mut self, index: usize, now: Timestamp) -> (r: bool)
        ensures
            old(self).inv() ==> final(self).inv(),
            r == stands_at(old(self)@, index as int, ProposalStatus::Proposed),
            final(self)@ == if r {
                resolved(old(self)@, index as int, ProposalStatus::Approved, now)
            } else {
                old(self)@
            },
    {
        self.resolve(index, ProposalStatus::Proposed, ProposalStatus::Approved, now)
    }

    /// Rejects a proposal that waits; says whether it did.
    pub fn reject_proposal(&mut self, index: usize, now: Timestamp) -> (r: bool)
        ensures
            old(self).inv() ==> final(self).inv(),
            r == stands_at(old(self)@, index as int, ProposalStatus::Proposed),
            final(self)@ == if r {
                resolved(old(self)@, index as int, ProposalStatus::Rejected, now)
            } else {
                old(self)@
            },
    {
        self.resolve(index, ProposalStatus::Proposed, ProposalStatus::Rejected, now)
    }

    fn resolve(&mut self, index: usize, from: ProposalStatus, to: ProposalStatus, now: Timestamp) -> (r: bool)
        ensures
            old(self).inv() ==> final(self).inv(),
            r == stands_at(old(self)@, index as int, from),
            final(self)@ == if r {
                resolved(old(self)@, index as int, to, now)
            } else {
                old(self)@
            },
    {
        let ghost before = self@;
        if index < self.proposals.len() {
            assert(before.proposals[index as int] == self.proposals@[index as int]@);
            if self.proposals[index].status == from {
                self.proposals[index].status = to;
                self.proposals[index].resolved_at = Some(now);
                assert(self@.proposals =~= resolved(before, index as int, to, now).proposals);
                return true;
            }
        }
        false
    }

    /// Carries out an approved proposal: its filter becomes that of the subscription. Says
    /// whether it did.
    pub fn apply_mutation(&mut self, index: usize, registry: &mut SubscriptionRegistry, now: Timestamp) -> (r: bool)
        ensures
            old(self).inv() ==> final(self).inv(),
            r == can_apply(old(self)@, index as int, old(registry)@),
            r ==> {
                let proposal = old(self)@.proposals[index as int];
                &&& final(self)@ == resolved(old(self)@, index as int, ProposalStatus::Applied, now)
                &&& final(registry)@ == refiltered(
                    old(registry)@,
                    proposal.subscription_id,
                    proposal.proposed_filter->0,
                )
            },
            !r ==> final(self)@ == old(self)@ && final(registry)@ == old(registry)@,
    {
        if index >= self.proposals.len() {
            return false;
        }
        assert(self@.proposals[index as int] == self.proposals@[index as int]@);
        if self.proposals[index].status != ProposalStatus::Approved {
            return false;
        }
        let new_filter = match &self.proposals[index].proposed_filter {
            Some(filter) => filter.clone(),
            None => {
                return false;
            },
        };
        if !registry.set_filter(&self.proposals[index].subscription_id, new_filter) {
            return false;
        }
        self.resolve(index, ProposalStatus::Approved, ProposalStatus::Applied, now)
    }

    /// All proposals.
    pub fn proposals(&self) -> (r: &Vec<MutationProposal>)
        ensures
            proposal_models(r@) == self@.proposals,
    {
        &self.proposals
    }

    /// The proposals that wait for an answer, in order.
    pub fn pending_proposals(&self) -> (r: Vec<&MutationProposal>)
        ensures
            views(r@) == self@.proposals.filter(|p: ProposalModel| p.status == ProposalStatus::Proposed),
    {
        let ghost all = self@.proposals;
        let ghost waiting = |p: ProposalModel| p.status == ProposalStatus::Proposed;
        let mut r: Vec<&MutationProposal> = Vec::new();
        let mut i: usize = 0;
        proof {
            reveal(Seq::filter);
            assert(views(r@) =~= all.take(0).filter(waiting));
        }
        while i < self.proposals.len()
            invariant
                i <= self.proposals@.len(),
                all == self@.proposals,
                waiting == (|p: ProposalModel| p.status == ProposalStatus::Proposed),
                views(r@) == all.take(i as int).filter(waiting),
            decreases self.proposals@.len() - i,
        {
            let ghost before = views(r@);
            proof {
                reveal(Seq::filter);
                assert(all.take(i + 1).drop_last() =~= all.take(i as int));
                assert(all.take(i + 1).last() == self.proposals@[i as int]@);
            }
            if self.proposals[i].status == ProposalStatus::Proposed {
                r.push(&self.proposals[i]);
                assert(views(r@) =~= before.push(self.proposals@[i as int]@));
            }
            i += 1;
        }
        assert(all.take(all.len() as int) =~= all);
        r
    }
}

impl Default for SubscriptionTracker {
    fn default() -> (r: Self)
        ensures
            r.inv(),
            r@ == (TrackerModel {
                order: Seq::empty(),
                metrics: Map::empty(),
                proposals: Seq::empty(),
                min_fires: 10,
                threshold: Number { bits: 0x3fe0_0000_0000_0000 },
            }),
    {
        SubscriptionTracker::new()
    }
}

/// What another filter would have made of the fires of a subscription.
#[derive(Debug)]
pub struct FilterSimulation {
    /// The fires that would still be.
    pub would_match: u64,
    /// The fires that would not be.
    pub would_not_match: u64,
    /// Of those that would be, the ones that were right.
    pub true_positives_kept: u64,
    /// Of those that would not be, the false alarms.
    pub false_positives_removed: u64,
    /// The part of those that would be that were right.
    pub estimated_precision: Option<Number>,
}

/// How many of the fires are on an event of the log that the filter asks for, or does not
/// ask for, and have the outcome, if one is given.
pub open spec fn simulated(
    fires: Seq<FireModel>,
    events: Seq<EventModel>,
    filter: FilterModel,
    asked: bool,
    outcome: Option<SubscriptionOutcome>,
) -> nat
    decreases fires.len(),
{
    if fires.len() == 0 {
        0
    } else {
        let f = fires.last();
        simulated(fires.drop_last(), events, filter, asked, outcome) + match last_position(events, f.trigger_event_id) {
            Some(i) => if passes(filter, events[i].kind) == asked && (outcome is None || f.outcome == outcome) {
                1nat
            } else {
                0nat
            },
            None => 0nat,
        }
    }
}

impl SubscriptionTracker {
    /// What another filter would have made of the fires of a subscription: those on events
    /// that the log still holds.
    pub fn simulate_filter(
        &self,
        subscription_id: &SubscriptionId,
        proposed_filter: &EventFilter,
        event_log: &EventLog,
    ) -> (r: FilterSimulation)
        requires
            self.inv(),
            event_log.inv(),
        ensures
            ({
                let fires = if self@.metrics.contains_key(subscription_id@) {
                    self@.metrics[subscription_id@].fires
                } else {
                    Seq::empty()
                };
                let events = event_log@.events;
                let filter = proposed_filter@;
                &&& r.would_match == simulated(fires, events, filter, true, None)
                &&& r.would_not_match == simulated(fires, events, filter, false, None)
                &&& r.true_positives_kept == simulated(
                    fires,
                    events,
                    filter,
                    true,
                    Some(SubscriptionOutcome::Confirmed),
                )
                &&& r.false_positives_removed == simulated(
                    fires,
                    events,
                    filter,
                    false,
                    Some(SubscriptionOutcome::Dismissed),
                )
                &&& r.estimated_precision == if r.would_match == 0 {
                    None
                } else {
                    Some(Number::part(r.true_positives_kept as nat, r.would_match as nat))
                }
            }),
    {
        let mut would_match: u64 = 0;
        let mut would_not_match: u64 = 0;
        let mut true_positives_kept: u64 = 0;
        let mut false_positives_removed: u64 = 0;
        if let Some(metrics) = self.metrics.get(subscription_id) {
            let ghost fires = metrics@.fires;
            let ghost events = event_log@.events;
            let ghost filter = proposed_filter@;
            let mut i: usize = 0;
            let n: usize = metrics.fire_log.len();
            assert(fires.take(0) =~= Seq::<FireModel>::empty());
            while i < n
                invariant
                    event_log.inv(),
                    i <= n,
                    n == metrics.fire_log@.len(),
                    fires == metrics@.fires,
                    events == event_log@.events,
                    filter == proposed_filter@,
                    would_match <= i,
                    would_not_match <= i,
                    true_positives_kept <= would_match,
                    false_positives_removed <= would_not_match,
                    would_match == simulated(fires.take(i as int), events, filter, true, None),
                    would_not_match == simulated(fires.take(i as int), events, filter, false, None),
                    true_positives_kept == simulated(
                        fires.take(i as int),
                        events,
                        filter,
                        true,
                        Some(SubscriptionOutcome::Confirmed),
                    ),
                    false_positives_removed == simulated(
                        fires.take(i as int),
                        events,
                        filter,
                        false,
                        Some(SubscriptionOutcome::Dismissed),
                    ),
                decreases n - i,
            {
                let record = &metrics.fire_log[i];
                proof {
                    assert(fires.take(i + 1).drop_last() =~= fires.take(i as int));
                    assert(fires.take(i + 1).last() == record@);
                }
                if let Some(event) = event_log.get(&record.trigger_event_id) {
                    if proposed_filter.matches(event) {
                        would_match += 1;
                        if let Some(SubscriptionOutcome::Confirmed) = record.outcome {
                            true_positives_kept += 1;
                        }
                    } else {
                        would_not_match += 1;
                        if let Some(SubscriptionOutcome::Dismissed) = record.outcome {
                            false_positives_removed += 1;
                        }
                    }
                }
                i += 1;
            }
            assert(fires.take(n as int) =~= fires);
        }
        let estimated_precision = if would_match > 0 {
            Some(Number::quotient(true_positives_kept, would_match))
        } else {
            None
        };
        FilterSimulation {
            would_match,
            would_not_match,
            true_positives_kept,
            false_positives_removed,
            estimated_precision,
        }
    }
}

/// Every fire is either judged or waits for a judgement.
pub proof fn law_every_fire_is_accounted_for(m: MetricsModel)
    requires
        m.sound(),
    ensures
        m.true_positives + m.false_positives + m.auto_accepted + outcome_count(m.fires, None) == m.total_fires,
{
    counts_add_up(m.fires);
}

/// A judgement stands: once a fire is judged, it cannot be judged again.
pub proof fn law_judgements_stand(
    state: TrackerModel,
    id: Seq<char>,
    i: int,
    outcome: SubscriptionOutcome,
)
    requires
        state.can_judge(id, i),
    ensures
        !state.with_metrics(id, state.metrics[id].judged(i, outcome)).can_judge(id, i),
        state.with_metrics(id, state.metrics[id].judged(i, outcome)).metrics[id].fires[i].outcome == Some(outcome),
{
}

/// After all fires of a subscription are judged, none waits for a judgement.
pub proof fn law_judging_all_leaves_none_open(m: MetricsModel, outcome: SubscriptionOutcome)
    ensures
        outcome_count(m.all_judged(outcome).fires, None) == 0,
        m.all_judged(outcome).all_judged(outcome) == m.all_judged(outcome),
{
    none_open(judged_fires(m.fires, outcome));
    let once = m.all_judged(outcome);
    assert(judged_fires(once.fires, outcome) =~= once.fires);
}

proof fn none_open(fires: Seq<FireModel>)
    requires
        forall|i: int| 0 <= i < fires.len() ==> (#[trigger] fires[i]).outcome is Some,
    ensures
        outcome_count(fires, None) == 0,
    decreases fires.len(),
{
    if fires.len() > 0 {
        assert(fires[fires.len() - 1].outcome is Some);
        none_open(fires.drop_last());
    }
}

/// A miss counts once: recorded again, it changes nothing.
pub proof fn law_a_miss_counts_once(
    state: TrackerModel,
    id: Seq<char>,
    name: Seq<char>,
    event: Seq<char>,
    reason: Option<Seq<char>>,
    now: Timestamp,
    other: Option<Seq<char>>,
    later: Timestamp,
)
    ensures
        !state.with_miss(id, name, event, reason, now).is_new_miss(id, event),
        state.with_miss(id, name, event, reason, now).with_miss(id, name, event, other, later) == state.with_miss(
            id,
            name,
            event,
            reason,
            now,
        ),
{
    if state.is_new_miss(id, event) {
        let misses = state.with_miss(id, name, event, reason, now).metrics[id].misses;
        assert(misses[misses.len() - 1].missed_event_id == event);
    }
}

proof fn proposed_or_waiting(state: TrackerModel, ids: Seq<Seq<char>>, now: Timestamp, i: int)
    requires
        0 <= i < ids.len(),
        does_badly(state, state.metrics[ids[i]]),
        !has_pending(state.proposals, state.metrics[ids[i]].subscription_id),
    ensures
        exists|j: int|
            0 <= j < proposals_for(state, ids, now).len() && #[trigger] proposals_for(state, ids, now)[j]
                == proposal_for(state.metrics[ids[i]], now),
    decreases ids.len(),
{
    let all = proposals_for(state, ids, now);
    let before = proposals_for(state, ids.drop_last(), now);
    if i == ids.len() - 1 {
        assert(all[all.len() - 1] == proposal_for(state.metrics[ids[i]], now));
    } else {
        proposed_or_waiting(state, ids.drop_last(), now, i);
        let j = choose|j: int|
            0 <= j < before.len() && #[trigger] before[j] == proposal_for(state.metrics[ids.drop_last()[i]], now);
        assert(all[j] == before[j]);
    }
}

proof fn nothing_to_propose(state: TrackerModel, ids: Seq<Seq<char>>, now: Timestamp)
    requires
        forall|i: int|
            0 <= i < ids.len() && does_badly(state, state.metrics[#[trigger] ids[i]]) ==> has_pending(
                state.proposals,
                state.metrics[ids[i]].subscription_id,
            ),
    ensures
        proposals_for(state, ids, now) == Seq::<ProposalModel>::empty(),
    decreases ids.len(),
{
    if ids.len() > 0 {
        let rest = ids.drop_last();
        assert forall|i: int| 0 <= i < rest.len() && does_badly(state, state.metrics[#[trigger] rest[i]]) implies has_pending(
            state.proposals,
            state.metrics[rest[i]].subscription_id,
        ) by {
            assert(rest[i] == ids[i]);
        }
        nothing_to_propose(state, rest, now);
        assert(ids[ids.len() - 1] == ids.last());
    }
}

/// While proposals wait for an answer, none is made again.
pub proof fn law_proposals_are_made_once(state: TrackerModel, now: Timestamp, later: Timestamp)
    ensures
        proposals_for(
            TrackerModel { proposals: state.proposals + proposals_for(state, state.order, now), ..state },
            state.order,
            later,
        ) == Seq::<ProposalModel>::empty(),
{
    let new = proposals_for(state, state.order, now);
    let after = TrackerModel { proposals: state.proposals + new, ..state };
    assert forall|i: int|
        0 <= i < state.order.len() && does_badly(after, after.metrics[#[trigger] state.order[i]]) implies has_pending(
        after.proposals,
        after.metrics[state.order[i]].subscription_id,
    ) by {
        let m = state.metrics[state.order[i]];
        assert(does_badly(state, m));
        if has_pending(state.proposals, m.subscription_id) {
            let j = choose|j: int|
                0 <= j < state.proposals.len() && (#[trigger] state.proposals[j]).subscription_id == m.subscription_id
                    && state.proposals[j].status == ProposalStatus::Proposed;
            assert(after.proposals[j] == state.proposals[j]);
        } else {
            proposed_or_waiting(state, state.order, now, i);
            let j = choose|j: int| 0 <= j < new.len() && #[trigger] new[j] == proposal_for(m, now);
            assert(after.proposals[state.proposals.len() + j] == new[j]);
        }
    }
    nothing_to_propose(after, state.order, later);
}

/// A proposal is answered once, and only an approved one is carried out.
pub proof fn law_proposals_are_answered_once(
    state: TrackerModel,
    index: int,
    answer: ProposalStatus,
    now: Timestamp,
    registry: Seq<SubscriptionModel>,
)
    requires
        stands_at(state, index, ProposalStatus::Proposed),
        answer == ProposalStatus::Approved || answer == ProposalStatus::Rejected,
    ensures
        !can_apply(state, index, registry),
        !stands_at(resolved(state, index, answer, now), index, ProposalStatus::Proposed),
        answer == ProposalStatus::Rejected ==> !can_apply(resolved(state, index, answer, now), index, registry),
{
}

} // verus!
