//! The anomaly engine: rules held against cascades, the graph, histories and the log.

use crate::anomaly_rules::{
    anomaly_models, detect_monotonic_trend, in_window, is_in_time_window, predicate_holds, trend_of, Anomaly,
    AnomalyKind, AnomalyKindModel, AnomalyModel, CascadeRule, ChangeRateRule, CounterfactualRule, DriftRule, NodeHistory,
    PatternRule, PropertyHistory, PropertyVersion, TimeWindowRule, TopologyRule, SEVEN_TENTHS,
};
use crate::cascade::CascadeResult;
use crate::counterfactual::{
    capped, changed_edges, changed_nodes, chosen_count, chosen_subtrees, counterfactual_filter, diff_projections,
    edges_differing, edges_only_in, is_filtered, nodes_differing, nodes_only_in, replay_count, replayed_graph,
};
use crate::decimals::{percent, percent_text};
use crate::event::{event_models, Event, EventModel};
use crate::event_log::{descendants, reached, EventLog};
use crate::graph::{EdgeModel, Node, NodeModel};
use crate::ids::{clone_ids, clone_opt_id, holds_id, opt_text, texts, EventId, Id, NodeId};
use crate::number::Number;
use crate::projection::{lemma_listed_count, GraphModel, Projection};
use crate::table::{law_listing_is_unique, listing, views};
use crate::text::{decimal, decimal_text, signed_decimal, signed_text, str_same};
use crate::time::{whole_seconds, Timestamp};
use vstd::prelude::*;
use vstd::slice::slice_subrange;
use vstd::string::StringExecFns;

verus! {

/// A number, or the greatest of its type where it is greater.
pub open spec fn capped_u32(n: nat) -> u32 {
    if n > u32::MAX {
        u32::MAX
    } else {
        n as u32
    }
}

/// The number of living edges of a type at a node, both ways.
pub open spec fn degree(graph: GraphModel, node: Seq<char>, edge_type: Seq<char>) -> u32 {
    capped_u32(
        graph.edges_from(node).intersect(graph.edges_of_type(edge_type)).len() + graph.edges_to(node).intersect(
            graph.edges_of_type(edge_type),
        ).len(),
    )
}

/// The text on a wrong number of edges.
pub open spec fn topology_text(rule: TopologyRule, node: Seq<char>, degree: u32) -> Seq<char> {
    rule.node_type@ + " "@ + node + " has "@ + decimal_text(degree as nat) + " '"@ + rule.edge_type@
        + "' edges (expected "@ + decimal_text(rule.min_degree as nat) + "-"@ + decimal_text(rule.max_degree as nat)
        + ")"@
}

/// The anomaly of a node with a wrong number of edges; with none where some are due, it is
/// an orphan, if orphans are told apart.
pub open spec fn topology_anomaly(
    rule: TopologyRule,
    node: Seq<char>,
    degree: u32,
    orphans: bool,
    trigger: Option<Seq<char>>,
    now: Timestamp,
) -> AnomalyModel {
    AnomalyModel {
        kind: if orphans && degree == 0 && rule.min_degree > 0 {
            AnomalyKindModel::StructuralOrphan { node_id: node, missing_edge_type: rule.edge_type@ }
        } else {
            AnomalyKindModel::TopologyDegree {
                node_id: node,
                edge_type: rule.edge_type@,
                expected_min: rule.min_degree,
                expected_max: rule.max_degree,
                actual: degree,
            }
        },
        description: topology_text(rule, node, degree),
        severity: rule.severity,
        affected_nodes: seq![node],
        trigger_event: trigger,
        detected_at: now,
    }
}

/// What a topology rule finds at a node.
pub open spec fn topology_check(
    graph: GraphModel,
    rule: TopologyRule,
    node: Seq<char>,
    orphans: bool,
    trigger: Option<Seq<char>>,
    now: Timestamp,
) -> Seq<AnomalyModel> {
    let d = degree(graph, node, rule.edge_type@);
    if d < rule.min_degree || d > rule.max_degree {
        seq![topology_anomaly(rule, node, d, orphans, trigger, now)]
    } else {
        Seq::empty()
    }
}

/// What the topology rules for a node's type find at it.
pub open spec fn node_topology(
    graph: GraphModel,
    rules: Seq<TopologyRule>,
    node: NodeModel,
    trigger: Option<Seq<char>>,
    now: Timestamp,
) -> Seq<AnomalyModel>
    decreases rules.len(),
{
    if rules.len() == 0 {
        Seq::empty()
    } else {
        let before = node_topology(graph, rules.drop_last(), node, trigger, now);
        if rules.last().node_type@ == node.type_id {
            before + topology_check(graph, rules.last(), node.id, false, trigger, now)
        } else {
            before
        }
    }
}

/// What the topology rules find at the living nodes of a list.
pub open spec fn nodes_topology(
    graph: GraphModel,
    rules: Seq<TopologyRule>,
    ids: Seq<Seq<char>>,
    trigger: Option<Seq<char>>,
    now: Timestamp,
) -> Seq<AnomalyModel>
    decreases ids.len(),
{
    if ids.len() == 0 {
        Seq::empty()
    } else {
        let before = nodes_topology(graph, rules, ids.drop_last(), trigger, now);
        if graph.has_node(ids.last()) {
            before + node_topology(graph, rules, graph.nodes[ids.last()], trigger, now)
        } else {
            before
        }
    }
}

/// What a topology rule finds at nodes.
pub open spec fn rule_topology(graph: GraphModel, rule: TopologyRule, nodes: Seq<NodeModel>, now: Timestamp) -> Seq<
    AnomalyModel,
>
    decreases nodes.len(),
{
    if nodes.len() == 0 {
        Seq::empty()
    } else {
        rule_topology(graph, rule, nodes.drop_last(), now) + topology_check(
            graph,
            rule,
            nodes.last().id,
            true,
            None,
            now,
        )
    }
}

/// The living nodes of a type, in ascending order of their identifiers.
pub open spec fn nodes_listed(graph: GraphModel, type_id: Seq<char>) -> Seq<NodeModel> {
    listing(graph.nodes, graph.nodes_of_type(type_id))
}

/// What the topology rules find in the whole graph.
pub open spec fn batch_topology(graph: GraphModel, rules: Seq<TopologyRule>, now: Timestamp) -> Seq<AnomalyModel>
    decreases rules.len(),
{
    if rules.len() == 0 {
        Seq::empty()
    } else {
        batch_topology(graph, rules.drop_last(), now) + rule_topology(
            graph,
            rules.last(),
            nodes_listed(graph, rules.last().node_type@),
            now,
        )
    }
}

/// The nodes that events are about, each once, in the order in which they first occur.
pub open spec fn affected(events: Seq<EventModel>) -> Seq<Seq<char>>
    decreases events.len(),
{
    if events.len() == 0 {
        Seq::empty()
    } else {
        let before = affected(events.drop_last());
        match events.last().kind.target() {
            Some(t) => if before.contains(t) {
                before
            } else {
                before.push(t)
            },
            None => before,
        }
    }
}

/// The first event of a cascade.
pub open spec fn first_event(events: Seq<EventModel>) -> Option<Seq<char>> {
    if events.len() > 0 {
        Some(events[0].id)
    } else {
        None
    }
}

/// What the cascade rule finds.
pub open spec fn amplification(rule: CascadeRule, events: Seq<EventModel>, depth: u32, now: Timestamp) -> Seq<
    AnomalyModel,
> {
    if events.len() > rule.max_event_count || depth > rule.max_depth {
        seq![
            AnomalyModel {
                kind: AnomalyKindModel::CascadeAmplification {
                    cascade_event_count: events.len() as usize,
                    cascade_depth: depth,
                    normal_max_count: rule.max_event_count,
                    normal_max_depth: rule.max_depth,
                },
                description: "Cascade produced "@ + decimal_text(events.len()) + " events (max "@ + decimal_text(
                    rule.max_event_count as nat,
                ) + ") at depth "@ + decimal_text(depth as nat) + " (max "@ + decimal_text(rule.max_depth as nat)
                    + ")"@,
                severity: rule.severity,
                affected_nodes: Seq::empty(),
                trigger_event: first_event(events),
                detected_at: now,
            },
        ]
    } else {
        Seq::empty()
    }
}

fn show_topology(rule: &TopologyRule, node: &NodeId, degree: u32) -> (r: String)
    ensures
        r@ == topology_text(*rule, node@, degree),
{
    let mut r = rule.node_type.clone();
    r.append(" ");
    r.append(node.as_str());
    r.append(" has ");
    r.append(decimal(degree as u64).as_str());
    r.append(" '");
    r.append(rule.edge_type.as_str());
    r.append("' edges (expected ");
    r.append(decimal(rule.min_degree as u64).as_str());
    r.append("-");
    r.append(decimal(rule.max_degree as u64).as_str());
    r.append(")");
    r
}

fn one_node(node: &NodeId) -> (r: Vec<NodeId>)
    ensures
        texts(r@) == seq![node@],
{
    let mut r: Vec<NodeId> = Vec::new();
    r.push(node.clone());
    assert(texts(r@) =~= seq![node@]);
    r
}

fn count_edges(graph: &Projection, node: &NodeId, edge_type: &str) -> (r: u32)
    requires
        graph.inv(),
    ensures
        r == degree(graph@, node@, edge_type@),
{
    let outgoing = graph.outgoing_edges_of_type(node, edge_type);
    let incoming = graph.incoming_edges_of_type(node, edge_type);
    proof {
        lemma_listed_count(
            views(outgoing@),
            graph@.edges,
            graph@.edges_from(node@).intersect(graph@.edges_of_type(edge_type@)),
        );
        lemma_listed_count(
            views(incoming@),
            graph@.edges,
            graph@.edges_to(node@).intersect(graph@.edges_of_type(edge_type@)),
        );
    }
    let out: u64 = outgoing.len() as u64;
    let inn: u64 = incoming.len() as u64;
    let sum: u64 = out.saturating_add(inn);
    if sum > 0xffff_ffff {
        0xffff_ffff
    } else {
        sum as u32
    }
}

proof fn pushed_models(anomalies: Seq<Anomaly>, found: Anomaly)
    ensures
        anomaly_models(anomalies.push(found)) == anomaly_models(anomalies) + seq![found@],
{
    assert(anomaly_models(anomalies.push(found)) =~= anomaly_models(anomalies) + seq![found@]);
}

fn check_topology(
    graph: &Projection,
    rule: &TopologyRule,
    node: &NodeId,
    orphans: bool,
    trigger: &Option<EventId>,
    now: Timestamp,
    anomalies: &mut Vec<Anomaly>,
)
    requires
        graph.inv(),
    ensures
        anomaly_models(final(anomalies)@) == anomaly_models(old(anomalies)@) + topology_check(
            graph@,
            *rule,
            node@,
            orphans,
            opt_text(*trigger),
            now,
        ),
{
    let d = count_edges(graph, node, rule.edge_type.as_str());
    if d < rule.min_degree || d > rule.max_degree {
        let kind = if orphans && d == 0 && rule.min_degree > 0 {
            AnomalyKind::StructuralOrphan { node_id: node.clone(), missing_edge_type: rule.edge_type.clone() }
        } else {
            AnomalyKind::TopologyDegree {
                node_id: node.clone(),
                edge_type: rule.edge_type.clone(),
                expected_min: rule.min_degree,
                expected_max: rule.max_degree,
                actual: d,
            }
        };
        let anomaly = Anomaly {
            kind,
            description: show_topology(rule, node, d),
            severity: rule.severity,
            affected_nodes: one_node(node),
            trigger_event: clone_opt_id(trigger),
            detected_at: now,
        };
        proof {
            pushed_models(anomalies@, anomaly);
        }
        anomalies.push(anomaly);
    } else {
        assert(anomaly_models(anomalies@) + Seq::<AnomalyModel>::empty() =~= anomaly_models(anomalies@));
    }
}

fn affected_nodes(events: &Vec<Event>) -> (r: Vec<NodeId>)
    ensures
        texts(r@) == affected(event_models(events@)),
{
    let ghost models = event_models(events@);
    let mut r: Vec<NodeId> = Vec::new();
    let mut i: usize = 0;
    assert(models.take(0) =~= Seq::<EventModel>::empty());
    assert(texts(r@) =~= Seq::<Seq<char>>::empty());
    while i < events.len()
        invariant
            i <= events@.len(),
            models == event_models(events@),
            texts(r@) == affected(models.take(i as int)),
        decreases events@.len() - i,
    {
        proof {
            assert(models.take(i + 1).drop_last() =~= models.take(i as int));
            assert(models.take(i + 1).last() == events@[i as int]@);
        }
        if let Some(node) = events[i].kind.target_node() {
            if !holds_id(&r, node) {
                let ghost before = texts(r@);
                r.push(node.clone());
                assert(texts(r@) =~= before.push(node@));
            }
        }
        i += 1;
    }
    assert(models.take(events@.len() as int) =~= models);
    r
}

fn trigger_of(events: &Vec<Event>) -> (r: Option<EventId>)
    ensures
        opt_text(r) == first_event(event_models(events@)),
{
    if events.len() > 0 {
        assert(event_models(events@)[0] == events@[0]@);
        Some(events[0].id.clone())
    } else {
        None
    }
}

/// Rules for what is ordinary. The engine reports what is not; it changes nothing.
pub struct AnomalyEngine {
    pub topology_rules: Vec<TopologyRule>,
    pub cascade_rule: CascadeRule,
    pub drift_rules: Vec<DriftRule>,
    pub change_rate_rules: Vec<ChangeRateRule>,
    pub time_window_rules: Vec<TimeWindowRule>,
    pub counterfactual_rules: Vec<CounterfactualRule>,
    pub pattern_rules: Vec<PatternRule>,
}

impl Default for AnomalyEngine {
    fn default() -> (r: Self)
        ensures
            r.rules() == 1,
            r.cascade_rule.max_event_count == 50,
            r.cascade_rule.max_depth == 10,
            r.cascade_rule.severity.bits == SEVEN_TENTHS,
    {
        AnomalyEngine::new()
    }
}

impl AnomalyEngine {
    /// The number of rules, the one for cascades included.
    pub open spec fn rules(&self) -> nat {
        self.topology_rules@.len() + 1 + self.drift_rules@.len() + self.change_rate_rules@.len()
            + self.time_window_rules@.len() + self.counterfactual_rules@.len() + self.pattern_rules@.len()
    }

    /// An engine with the usual rule for cascades and no other.
    pub fn new() -> (r: Self)
        ensures
            r.rules() == 1,
            r.cascade_rule.max_event_count == 50,
            r.cascade_rule.max_depth == 10,
            r.cascade_rule.severity.bits == SEVEN_TENTHS,
    {
        AnomalyEngine {
            topology_rules: Vec::new(),
            cascade_rule: CascadeRule::default(),
            drift_rules: Vec::new(),
            change_rate_rules: Vec::new(),
            time_window_rules: Vec::new(),
            counterfactual_rules: Vec::new(),
            pattern_rules: Vec::new(),
        }
    }

    /// The engine with another rule for cascades.
    pub fn with_cascade_rule(self, rule: CascadeRule) -> (r: Self)
        ensures
            r == (AnomalyEngine { cascade_rule: rule, ..self }),
    {
        let mut engine = self;
        engine.cascade_rule = rule;
        engine
    }

    /// Adds a topology rule.
    pub fn add_topology_rule(&mut self, rule: TopologyRule)
        ensures
            final(self).topology_rules@ == old(self).topology_rules@.push(rule),
            *final(self) == (AnomalyEngine { topology_rules: final(self).topology_rules, ..*old(self) }),
    {
        self.topology_rules.push(rule);
    }

    /// Adds a drift rule.
    pub fn add_drift_rule(&mut self, rule: DriftRule)
        ensures
            final(self).drift_rules@ == old(self).drift_rules@.push(rule),
            *final(self) == (AnomalyEngine { drift_rules: final(self).drift_rules, ..*old(self) }),
    {
        self.drift_rules.push(rule);
    }

    /// Adds a change rate rule.
    pub fn add_change_rate_rule(&mut self, rule: ChangeRateRule)
        ensures
            final(self).change_rate_rules@ == old(self).change_rate_rules@.push(rule),
            *final(self) == (AnomalyEngine { change_rate_rules: final(self).change_rate_rules, ..*old(self) }),
    {
        self.change_rate_rules.push(rule);
    }

    /// Adds a time window rule. Its hours are hours of the day.
    pub fn add_time_window_rule(&mut self, rule: TimeWindowRule)
        requires
            rule.start_hour < 24,
            rule.end_hour < 24,
        ensures
            final(self).time_window_rules@ == old(self).time_window_rules@.push(rule),
            *final(self) == (AnomalyEngine { time_window_rules: final(self).time_window_rules, ..*old(self) }),
    {
        self.time_window_rules.push(rule);
    }

    /// Adds a counterfactual rule.
    pub fn add_counterfactual_rule(&mut self, rule: CounterfactualRule)
        ensures
            final(self).counterfactual_rules@ == old(self).counterfactual_rules@.push(rule),
            *final(self) == (AnomalyEngine { counterfactual_rules: final(self).counterfactual_rules, ..*old(self) }),
    {
        self.counterfactual_rules.push(rule);
    }

    /// Adds a pattern rule.
    pub fn add_pattern_rule(&mut self, rule: PatternRule)
        ensures
            final(self).pattern_rules@ == old(self).pattern_rules@.push(rule),
            *final(self) == (AnomalyEngine { pattern_rules: final(self).pattern_rules, ..*old(self) }),
    {
        self.pattern_rules.push(rule);
    }

    /// The number of rules, the one for cascades included, up to the greatest number.
    pub fn rule_count(&self) -> (r: usize)
        ensures
            r == capped(self.rules()),
    {
        self.topology_rules.len().saturating_add(1).saturating_add(self.drift_rules.len()).saturating_add(
            self.change_rate_rules.len(),
        ).saturating_add(self.time_window_rules.len()).saturating_add(self.counterfactual_rules.len()).saturating_add(
            self.pattern_rules.len(),
        )
    }

    fn check_cascade_amplification(&self, result: &CascadeResult, now: Timestamp, anomalies: &mut Vec<Anomaly>)
        ensures
            anomaly_models(final(anomalies)@) == anomaly_models(old(anomalies)@) + amplification(
                self.cascade_rule,
                event_models(result.events@),
                result.max_depth_reached,
                now,
            ),
    {
        let count: usize = result.events.len();
        let depth: u32 = result.max_depth_reached;
        if count > self.cascade_rule.max_event_count || depth > self.cascade_rule.max_depth {
            let mut description = "Cascade produced ".to_owned();
            description.append(decimal(count as u64).as_str());
            description.append(" events (max ");
            description.append(decimal(self.cascade_rule.max_event_count as u64).as_str());
            description.append(") at depth ");
            description.append(decimal(depth as u64).as_str());
            description.append(" (max ");
            description.append(decimal(self.cascade_rule.max_depth as u64).as_str());
            description.append(")");
            let nodes: Vec<NodeId> = Vec::new();
            assert(texts(nodes@) =~= Seq::<Seq<char>>::empty());
            let anomaly = Anomaly {
                kind: AnomalyKind::CascadeAmplification {
                    cascade_event_count: count,
                    cascade_depth: depth,
                    normal_max_count: self.cascade_rule.max_event_count,
                    normal_max_depth: self.cascade_rule.max_depth,
                },
                description,
                severity: self.cascade_rule.severity,
                affected_nodes: nodes,
                trigger_event: trigger_of(&result.events),
                detected_at: now,
            };
            proof {
                pushed_models(anomalies@, anomaly);
            }
            anomalies.push(anomaly);
        } else {
            assert(anomaly_models(anomalies@) + Seq::<AnomalyModel>::empty() =~= anomaly_models(anomalies@));
        }
    }

    fn check_node_topology(
        &self,
        node: &Node,
        graph: &Projection,
        trigger: &Option<EventId>,
        now: Timestamp,
        anomalies: &mut Vec<Anomaly>,
    )
        requires
            graph.inv(),
        ensures
            anomaly_models(final(anomalies)@) == anomaly_models(old(anomalies)@) + node_topology(
                graph@,
                self.topology_rules@,
                node@,
                opt_text(*trigger),
                now,
            ),
    {
        let ghost before = anomaly_models(anomalies@);
        let ghost rules = self.topology_rules@;
        let mut i: usize = 0;
        assert(before + Seq::<AnomalyModel>::empty() =~= before);
        while i < self.topology_rules.len()
            invariant
                graph.inv(),
                i <= self.topology_rules@.len(),
                rules == self.topology_rules@,
                anomaly_models(anomalies@) == before + node_topology(
                    graph@,
                    rules.take(i as int),
                    node@,
                    opt_text(*trigger),
                    now,
                ),
            decreases self.topology_rules@.len() - i,
        {
            proof {
                assert(rules.take(i + 1).drop_last() =~= rules.take(i as int));
                assert(rules.take(i + 1).last() == rules[i as int]);
            }
            let rule = &self.topology_rules[i];
            if str_same(node.type_id.as_str(), rule.node_type.as_str()) {
                let ghost found = node_topology(graph@, rules.take(i as int), node@, opt_text(*trigger), now);
                check_topology(graph, rule, &node.id, false, trigger, now, anomalies);
                proof {
                    let next = topology_check(graph@, *rule, node@.id, false, opt_text(*trigger), now);
                    assert((before + found) + next =~= before + (found + next));
                }
            }
            i += 1;
        }
        assert(rules.take(rules.len() as int) =~= rules);
    }

    fn check_topology_for_cascade(
        &self,
        result: &CascadeResult,
        graph: &Projection,
        now: Timestamp,
        anomalies: &mut Vec<Anomaly>,
    )
        requires
            graph.inv(),
        ensures
            anomaly_models(final(anomalies)@) == anomaly_models(old(anomalies)@) + nodes_topology(
                graph@,
                self.topology_rules@,
                affected(event_models(result.events@)),
                first_event(event_models(result.events@)),
                now,
            ),
    {
        let ghost before = anomaly_models(anomalies@);
        let nodes = affected_nodes(&result.events);
        let trigger = trigger_of(&result.events);
        let ghost ids = texts(nodes@);
        let mut i: usize = 0;
        assert(ids.take(0) =~= Seq::<Seq<char>>::empty());
        assert(before + Seq::<AnomalyModel>::empty() =~= before);
        while i < nodes.len()
            invariant
                graph.inv(),
                i <= nodes@.len(),
                ids == texts(nodes@),
                anomaly_models(anomalies@) == before + nodes_topology(
                    graph@,
                    self.topology_rules@,
                    ids.take(i as int),
                    opt_text(trigger),
                    now,
                ),
            decreases nodes@.len() - i,
        {
            let ghost found = nodes_topology(graph@, self.topology_rules@, ids.take(i as int), opt_text(trigger), now);
            proof {
                assert(ids.take(i + 1).drop_last() =~= ids.take(i as int));
                assert(ids.take(i + 1).last() == nodes@[i as int]@);
            }
            if let Some(node) = graph.node(&nodes[i]) {
                if node.alive {
                    self.check_node_topology(node, graph, &trigger, now, anomalies);
                    proof {
                        let next = node_topology(graph@, self.topology_rules@, node@, opt_text(trigger), now);
                        assert((before + found) + next =~= before + (found + next));
                    }
                }
            }
            i += 1;
        }
        assert(ids.take(ids.len() as int) =~= ids);
    }

    fn check_topology_rule(&self, rule: &TopologyRule, graph: &Projection, now: Timestamp, anomalies: &mut Vec<Anomaly>)
        requires
            graph.inv(),
        ensures
            anomaly_models(final(anomalies)@) == anomaly_models(old(anomalies)@) + rule_topology(
                graph@,
                *rule,
                nodes_listed(graph@, rule.node_type@),
                now,
            ),
    {
        let ghost before = anomaly_models(anomalies@);
        let nodes = graph.nodes_by_type(rule.node_type.as_str());
        let ghost all = nodes_listed(graph@, rule.node_type@);
        proof {
            law_listing_is_unique(views(nodes@), graph@.nodes, graph@.nodes_of_type(rule.node_type@));
        }
        let mut i: usize = 0;
        assert(all.take(0) =~= Seq::<NodeModel>::empty());
        assert(before + Seq::<AnomalyModel>::empty() =~= before);
        while i < nodes.len()
            invariant
                graph.inv(),
                i <= nodes@.len(),
                all == views(nodes@),
                anomaly_models(anomalies@) == before + rule_topology(graph@, *rule, all.take(i as int), now),
            decreases nodes@.len() - i,
        {
            let ghost found = rule_topology(graph@, *rule, all.take(i as int), now);
            proof {
                assert(all.take(i + 1).drop_last() =~= all.take(i as int));
                assert(all.take(i + 1).last() == nodes@[i as int]@);
            }
            check_topology(graph, rule, &nodes[i].id, true, &None, now, anomalies);
            proof {
                let next = topology_check(graph@, *rule, nodes@[i as int]@.id, true, None, now);
                assert((before + found) + next =~= before + (found + next));
            }
            i += 1;
        }
        assert(all.take(all.len() as int) =~= all);
    }

    fn check_topology_batch(&self, graph: &Projection, now: Timestamp, anomalies: &mut Vec<Anomaly>)
        requires
            graph.inv(),
        ensures
            anomaly_models(final(anomalies)@) == anomaly_models(old(anomalies)@) + batch_topology(
                graph@,
                self.topology_rules@,
                now,
            ),
    {
        let ghost before = anomaly_models(anomalies@);
        let ghost rules = self.topology_rules@;
        let mut i: usize = 0;
        assert(rules.take(0) =~= Seq::<TopologyRule>::empty());
        assert(before + Seq::<AnomalyModel>::empty() =~= before);
        while i < self.topology_rules.len()
            invariant
                graph.inv(),
                i <= self.topology_rules@.len(),
                rules == self.topology_rules@,
                anomaly_models(anomalies@) == before + batch_topology(graph@, rules.take(i as int), now),
            decreases self.topology_rules@.len() - i,
        {
            let ghost found = batch_topology(graph@, rules.take(i as int), now);
            proof {
                assert(rules.take(i + 1).drop_last() =~= rules.take(i as int));
                assert(rules.take(i + 1).last() == rules[i as int]);
            }
            self.check_topology_rule(&self.topology_rules[i], graph, now, anomalies);
            proof {
                let next = rule_topology(
                    graph@,
                    rules[i as int],
                    nodes_listed(graph@, rules[i as int].node_type@),
                    now,
                );
                assert((before + found) + next =~= before + (found + next));
            }
            i += 1;
        }
        assert(rules.take(rules.len() as int) =~= rules);
    }
}

/// The versions of a property in a history, in order; none where it has no such property.
pub open spec fn versions_of(properties: Seq<PropertyHistory>, property: Seq<char>) -> Seq<PropertyVersion>
    decreases properties.len(),
{
    if properties.len() == 0 {
        Seq::empty()
    } else if properties[0].property@ == property {
        properties[0].versions@
    } else {
        versions_of(properties.skip(1), property)
    }
}

/// Every version of every property has a time in range.
pub open spec fn times_valid(histories: Seq<NodeHistory>) -> bool {
    forall|i: int, j: int, k: int|
        0 <= i < histories.len() && 0 <= j < histories[i].properties@.len() && 0 <= k
            < histories[i].properties@[j].versions@.len()
            ==> (#[trigger] histories[i].properties@[j].versions@[k]).effective_from.valid()
}

/// The last values of a property that a drift rule looks at: so many changes, and the value
/// before them.
pub open spec fn recent_values(rule: DriftRule, history: NodeHistory) -> Seq<PropertyVersion> {
    let all = versions_of(history.properties@, rule.property@);
    if all.len() > rule.min_consecutive {
        all.skip(all.len() - rule.min_consecutive - 1)
    } else {
        Seq::empty()
    }
}

/// What a drift rule finds in a history.
pub open spec fn drift_of(rule: DriftRule, history: NodeHistory, now: Timestamp) -> Seq<AnomalyModel> {
    let recent = recent_values(rule, history);
    if history.type_id@ != rule.node_type@ || versions_of(history.properties@, rule.property@).len()
        <= rule.min_consecutive || trend_of(recent) is None {
        Seq::empty()
    } else {
        seq![
            AnomalyModel {
                kind: AnomalyKindModel::TemporalDrift {
                    node_id: history.node_id@,
                    property: rule.property@,
                    direction: trend_of(recent)->0,
                    data_points: recent.len() as usize,
                    duration_secs: whole_seconds(
                        recent.last().effective_from.total_nanos() - recent[0].effective_from.total_nanos(),
                    ) as i64,
                },
                description: rule.node_type@ + " "@ + history.node_id@ + " property '"@ + rule.property@
                    + "' has been monotonically changing for "@ + decimal_text(recent.len()) + " data points"@,
                severity: rule.severity,
                affected_nodes: seq![history.node_id@],
                trigger_event: None,
                detected_at: now,
            },
        ]
    }
}

/// What a drift rule finds in histories.
pub open spec fn rule_drift(rule: DriftRule, histories: Seq<NodeHistory>, now: Timestamp) -> Seq<AnomalyModel>
    decreases histories.len(),
{
    if histories.len() == 0 {
        Seq::empty()
    } else {
        rule_drift(rule, histories.drop_last(), now) + drift_of(rule, histories.last(), now)
    }
}

/// What the drift rules find in histories.
pub open spec fn batch_drift(rules: Seq<DriftRule>, histories: Seq<NodeHistory>, now: Timestamp) -> Seq<AnomalyModel>
    decreases rules.len(),
{
    if rules.len() == 0 {
        Seq::empty()
    } else {
        batch_drift(rules.drop_last(), histories, now) + rule_drift(rules.last(), histories, now)
    }
}

/// The times of all changes in a history, property by property.
pub open spec fn change_times(properties: Seq<PropertyHistory>) -> Seq<Timestamp>
    decreases properties.len(),
{
    if properties.len() == 0 {
        Seq::empty()
    } else {
        change_times(properties.drop_last()) + properties.last().versions@.map_values(
            |v: PropertyVersion| v.effective_from,
        )
    }
}

/// Whether a time lies in a span, both ends included; without a lower end all history counts.
pub open spec fn in_span(time: Timestamp, low: Option<int>, high: int) -> bool {
    &&& low is Some ==> low->0 <= time.total_nanos()
    &&& time.total_nanos() <= high
}

/// How many of the times lie in a span.
pub open spec fn count_in_span(times: Seq<Timestamp>, low: Option<int>, high: int) -> nat
    decreases times.len(),
{
    if times.len() == 0 {
        0
    } else if in_span(times.last(), low, high) {
        count_in_span(times.drop_last(), low, high) + 1
    } else {
        count_in_span(times.drop_last(), low, high)
    }
}

/// Whether a time lies in a span, and its hour outside a window.
pub open spec fn out_of_window(time: Timestamp, low: Option<int>, high: int, rule: TimeWindowRule) -> bool {
    in_span(time, low, high) && !in_window(time.hour_of_day(), rule.start_hour as int, rule.end_hour as int)
}

/// How many of the times lie in a span and have their hour outside a window.
pub open spec fn count_out_of_window(times: Seq<Timestamp>, low: Option<int>, high: int, rule: TimeWindowRule) -> nat
    decreases times.len(),
{
    if times.len() == 0 {
        0
    } else if out_of_window(times.last(), low, high, rule) {
        count_out_of_window(times.drop_last(), low, high, rule) + 1
    } else {
        count_out_of_window(times.drop_last(), low, high, rule)
    }
}

/// The hour of the first of these times, zero where there is none.
pub open spec fn first_hour_out(times: Seq<Timestamp>, low: Option<int>, high: int, rule: TimeWindowRule) -> int
    decreases times.len(),
{
    if times.len() == 0 {
        0
    } else if count_out_of_window(times.drop_last(), low, high, rule) > 0 {
        first_hour_out(times.drop_last(), low, high, rule)
    } else if out_of_window(times.last(), low, high, rule) {
        times.last().hour_of_day()
    } else {
        0
    }
}

/// The time so many seconds before another, in nanoseconds.
pub open spec fn nanos_before(now: Timestamp, seconds: i64) -> int {
    now.total_nanos() - seconds * 1_000_000_000
}

/// What a change rate rule finds in a history.
pub open spec fn change_rate_of(rule: ChangeRateRule, history: NodeHistory, now: Timestamp) -> Seq<AnomalyModel> {
    let changes = count_in_span(
        change_times(history.properties@),
        Some(nanos_before(now, rule.window_secs)),
        now.total_nanos(),
    );
    if history.type_id@ != rule.node_type@ || changes <= rule.max_changes {
        Seq::empty()
    } else {
        seq![
            AnomalyModel {
                kind: AnomalyKindModel::ChangeRateAnomaly {
                    node_id: history.node_id@,
                    changes_in_window: changes as usize,
                    normal_max: rule.max_changes,
                    window_secs: rule.window_secs,
                },
                description: rule.node_type@ + " "@ + history.node_id@ + " changed "@ + decimal_text(changes)
                    + " times in "@ + signed_text(rule.window_secs as int) + " seconds (max "@ + decimal_text(
                    rule.max_changes as nat,
                ) + ")"@,
                severity: rule.severity,
                affected_nodes: seq![history.node_id@],
                trigger_event: None,
                detected_at: now,
            },
        ]
    }
}

/// What a change rate rule finds in histories.
pub open spec fn rule_change_rate(rule: ChangeRateRule, histories: Seq<NodeHistory>, now: Timestamp) -> Seq<AnomalyModel>
    decreases histories.len(),
{
    if histories.len() == 0 {
        Seq::empty()
    } else {
        rule_change_rate(rule, histories.drop_last(), now) + change_rate_of(rule, histories.last(), now)
    }
}

/// What the change rate rules find in histories.
pub open spec fn batch_change_rate(rules: Seq<ChangeRateRule>, histories: Seq<NodeHistory>, now: Timestamp) -> Seq<
    AnomalyModel,
>
    decreases rules.len(),
{
    if rules.len() == 0 {
        Seq::empty()
    } else {
        batch_change_rate(rules.drop_last(), histories, now) + rule_change_rate(rules.last(), histories, now)
    }
}

/// Where a time window rule starts to look.
pub open spec fn lookback_start(rule: TimeWindowRule, now: Timestamp) -> Option<int> {
    if rule.lookback_secs > 0 {
        Some(nanos_before(now, rule.lookback_secs))
    } else {
        None
    }
}

/// What a time window rule finds in a history.
pub open spec fn time_window_of(rule: TimeWindowRule, history: NodeHistory, now: Timestamp) -> Seq<AnomalyModel> {
    let times = change_times(history.properties@);
    let low = lookback_start(rule, now);
    let high = now.total_nanos();
    let total = count_in_span(times, low, high);
    let violations = count_out_of_window(times, low, high, rule);
    if history.type_id@ != rule.node_type@ || violations <= rule.tolerance {
        Seq::empty()
    } else {
        seq![
            AnomalyModel {
                kind: AnomalyKindModel::TimeWindowViolation {
                    node_id: history.node_id@,
                    change_hour: first_hour_out(times, low, high, rule) as u32,
                    expected_start_hour: rule.start_hour,
                    expected_end_hour: rule.end_hour,
                    violations: violations as usize,
                    total_changes: total as usize,
                },
                description: rule.node_type@ + " "@ + history.node_id@ + " had "@ + decimal_text(violations)
                    + " changes outside the "@ + decimal_text(rule.start_hour as nat) + "-"@ + decimal_text(
                    rule.end_hour as nat,
                ) + " UTC window ("@ + decimal_text(total) + " total changes)"@,
                severity: rule.severity,
                affected_nodes: seq![history.node_id@],
                trigger_event: None,
                detected_at: now,
            },
        ]
    }
}

/// What a time window rule finds in histories.
pub open spec fn rule_time_window(rule: TimeWindowRule, histories: Seq<NodeHistory>, now: Timestamp) -> Seq<AnomalyModel>
    decreases histories.len(),
{
    if histories.len() == 0 {
        Seq::empty()
    } else {
        rule_time_window(rule, histories.drop_last(), now) + time_window_of(rule, histories.last(), now)
    }
}

/// What the time window rules find in histories.
pub open spec fn batch_time_window(rules: Seq<TimeWindowRule>, histories: Seq<NodeHistory>, now: Timestamp) -> Seq<
    AnomalyModel,
>
    decreases rules.len(),
{
    if rules.len() == 0 {
        Seq::empty()
    } else {
        batch_time_window(rules.drop_last(), histories, now) + rule_time_window(rules.last(), histories, now)
    }
}

fn find_versions<'a>(history: &'a NodeHistory, property: &str) -> (r: Option<&'a Vec<PropertyVersion>>)
    ensures
        match r {
            Some(versions) => {
                &&& versions@ == versions_of(history.properties@, property@)
                &&& exists|j: int| 0 <= j < history.properties@.len() && versions@ == (#[trigger] history.properties@[j]).versions@
            },
            None => versions_of(history.properties@, property@).len() == 0,
        },
{
    let ghost all = history.properties@;
    let mut i: usize = 0;
    assert(all.skip(0) =~= all);
    while i < history.properties.len()
        invariant
            i <= history.properties@.len(),
            all == history.properties@,
            versions_of(all, property@) == versions_of(all.skip(i as int), property@),
        decreases history.properties@.len() - i,
    {
        assert(all.skip(i as int)[0] == all[i as int]);
        assert(all.skip(i as int).skip(1) =~= all.skip(i + 1));
        if str_same(history.properties[i].property.as_str(), property) {
            return Some(&history.properties[i].versions);
        }
        i += 1;
    }
    None
}

fn list_change_times(history: &NodeHistory) -> (r: Vec<Timestamp>)
    ensures
        r@ == change_times(history.properties@),
{
    let ghost all = history.properties@;
    let mut r: Vec<Timestamp> = Vec::new();
    let mut i: usize = 0;
    assert(all.take(0) =~= Seq::<PropertyHistory>::empty());
    while i < history.properties.len()
        invariant
            i <= history.properties@.len(),
            all == history.properties@,
            r@ == change_times(all.take(i as int)),
        decreases history.properties@.len() - i,
    {
        let ghost before = r@;
        let versions = &history.properties[i].versions;
        let ghost times = versions@.map_values(|v: PropertyVersion| v.effective_from);
        let mut k: usize = 0;
        assert(before + times.take(0) =~= before);
        while k < versions.len()
            invariant
                k <= versions@.len(),
                times == versions@.map_values(|v: PropertyVersion| v.effective_from),
                r@ == before + times.take(k as int),
            decreases versions@.len() - k,
        {
            r.push(versions[k].effective_from);
            assert(r@ =~= before + times.take(k + 1));
            k += 1;
        }
        proof {
            assert(times.take(versions@.len() as int) =~= times);
            assert(all.take(i + 1).drop_last() =~= all.take(i as int));
            assert(all.take(i + 1).last() == all[i as int]);
        }
        i += 1;
    }
    assert(all.take(all.len() as int) =~= all);
    r
}

fn nanos_of(time: Timestamp) -> (r: i128)
    ensures
        r == time.total_nanos(),
{
    time.seconds as i128 * 1_000_000_000 + time.nanos as i128
}

fn is_in_span(time: Timestamp, low: Option<i128>, high: i128) -> (r: bool)
    ensures
        r == in_span(
            time,
            match low {
                Some(l) => Some(l as int),
                None => None,
            },
            high as int,
        ),
{
    let t = nanos_of(time);
    let late = match low {
        Some(l) => l <= t,
        None => true,
    };
    late && t <= high
}

proof fn times_of_history(histories: Seq<NodeHistory>, i: int, n: int)
    requires
        times_valid(histories),
        0 <= i < histories.len(),
        0 <= n <= histories[i].properties@.len(),
    ensures
        forall|k: int|
            0 <= k < change_times(histories[i].properties@.take(n)).len() ==> (#[trigger] change_times(
                histories[i].properties@.take(n),
            )[k]).valid(),
    decreases n,
{
    let all = histories[i].properties@;
    if n > 0 {
        times_of_history(histories, i, n - 1);
        assert(all.take(n).drop_last() =~= all.take(n - 1));
        assert(all.take(n).last() == all[n - 1]);
        let fewer = change_times(all.take(n - 1));
        let times = change_times(all.take(n));
        assert forall|k: int| 0 <= k < times.len() implies (#[trigger] times[k]).valid() by {
            if k < fewer.len() {
                assert(times[k] == fewer[k]);
            } else {
                assert(times[k] == all[n - 1].versions@[k - fewer.len()].effective_from);
                assert(histories[i].properties@[n - 1].versions@[k - fewer.len()].effective_from.valid());
            }
        }
    }
}

fn check_drift(
    rule: &DriftRule,
    histories: &Vec<NodeHistory>,
    i: usize,
    now: Timestamp,
    anomalies: &mut Vec<Anomaly>,
)
    requires
        i < histories@.len(),
        times_valid(histories@),
    ensures
        anomaly_models(final(anomalies)@) == anomaly_models(old(anomalies)@) + drift_of(
            *rule,
            histories@[i as int],
            now,
        ),
{
    let history = &histories[i];
    let ghost before = anomaly_models(anomalies@);
    assert(before + Seq::<AnomalyModel>::empty() =~= before);
    if !str_same(history.type_id.as_str(), rule.node_type.as_str()) {
        return;
    }
    let versions = match find_versions(history, rule.property.as_str()) {
        Some(versions) => versions,
        None => {
            assert(recent_values(*rule, *history).len() == 0);
            return;
        },
    };
    if versions.len() <= rule.min_consecutive {
        return;
    }
    let start: usize = versions.len() - rule.min_consecutive - 1;
    let recent = slice_subrange(versions.as_slice(), start, versions.len());
    assert(recent@ =~= recent_values(*rule, *history));
    if let Some(direction) = detect_monotonic_trend(recent) {
        let n: usize = recent.len();
        proof {
            let j = choose|j: int|
                0 <= j < history.properties@.len() && versions@ == (#[trigger] history.properties@[j]).versions@;
            assert(histories@[i as int].properties@[j].versions@[start as int].effective_from.valid());
            assert(histories@[i as int].properties@[j].versions@[versions@.len() - 1].effective_from.valid());
            assert(recent@[0] == versions@[start as int]);
            assert(recent@[n - 1] == versions@[versions@.len() - 1]);
        }
        let duration = recent[n - 1].effective_from.seconds_since(recent[0].effective_from);
        let mut description = rule.node_type.clone();
        description.append(" ");
        description.append(history.node_id.as_str());
        description.append(" property '");
        description.append(rule.property.as_str());
        description.append("' has been monotonically changing for ");
        description.append(decimal(n as u64).as_str());
        description.append(" data points");
        let anomaly = Anomaly {
            kind: AnomalyKind::TemporalDrift {
                node_id: history.node_id.clone(),
                property: rule.property.clone(),
                direction,
                data_points: n,
                duration_secs: duration,
            },
            description,
            severity: rule.severity,
            affected_nodes: one_node(&history.node_id),
            trigger_event: None,
            detected_at: now,
        };
        proof {
            pushed_models(anomalies@, anomaly);
        }
        anomalies.push(anomaly);
    }
}

fn check_change_rate(rule: &ChangeRateRule, history: &NodeHistory, now: Timestamp, anomalies: &mut Vec<Anomaly>)
    ensures
        anomaly_models(final(anomalies)@) == anomaly_models(old(anomalies)@) + change_rate_of(*rule, *history, now),
{
    let ghost before = anomaly_models(anomalies@);
    assert(before + Seq::<AnomalyModel>::empty() =~= before);
    if !str_same(history.type_id.as_str(), rule.node_type.as_str()) {
        return;
    }
    let times = list_change_times(history);
    let high = nanos_of(now);
    let low: i128 = high - rule.window_secs as i128 * 1_000_000_000;
    let mut changes: usize = 0;
    let mut i: usize = 0;
    assert(times@.take(0) =~= Seq::<Timestamp>::empty());
    while i < times.len()
        invariant
            i <= times@.len(),
            changes <= i,
            changes == count_in_span(times@.take(i as int), Some(low as int), high as int),
        decreases times@.len() - i,
    {
        proof {
            assert(times@.take(i + 1).drop_last() =~= times@.take(i as int));
            assert(times@.take(i + 1).last() == times@[i as int]);
        }
        if is_in_span(times[i], Some(low), high) {
            changes += 1;
        }
        i += 1;
    }
    assert(times@.take(times@.len() as int) =~= times@);
    if changes > rule.max_changes {
        let mut description = rule.node_type.clone();
        description.append(" ");
        description.append(history.node_id.as_str());
        description.append(" changed ");
        description.append(decimal(changes as u64).as_str());
        description.append(" times in ");
        description.append(signed_decimal(rule.window_secs).as_str());
        description.append(" seconds (max ");
        description.append(decimal(rule.max_changes as u64).as_str());
        description.append(")");
        let anomaly = Anomaly {
            kind: AnomalyKind::ChangeRateAnomaly {
                node_id: history.node_id.clone(),
                changes_in_window: changes,
                normal_max: rule.max_changes,
                window_secs: rule.window_secs,
            },
            description,
            severity: rule.severity,
            affected_nodes: one_node(&history.node_id),
            trigger_event: None,
            detected_at: now,
        };
        proof {
            pushed_models(anomalies@, anomaly);
        }
        anomalies.push(anomaly);
    }
}

fn check_time_window(
    rule: &TimeWindowRule,
    histories: &Vec<NodeHistory>,
    at: usize,
    now: Timestamp,
    anomalies: &mut Vec<Anomaly>,
)
    requires
        at < histories@.len(),
        times_valid(histories@),
    ensures
        anomaly_models(final(anomalies)@) == anomaly_models(old(anomalies)@) + time_window_of(
            *rule,
            histories@[at as int],
            now,
        ),
{
    let history = &histories[at];
    let ghost before = anomaly_models(anomalies@);
    assert(before + Seq::<AnomalyModel>::empty() =~= before);
    if !str_same(history.type_id.as_str(), rule.node_type.as_str()) {
        return;
    }
    let times = list_change_times(history);
    proof {
        times_of_history(histories@, at as int, history.properties@.len() as int);
        assert(history.properties@.take(history.properties@.len() as int) =~= history.properties@);
    }
    let high = nanos_of(now);
    let low: Option<i128> = if rule.lookback_secs > 0 {
        Some(high - rule.lookback_secs as i128 * 1_000_000_000)
    } else {
        None
    };
    let ghost from = lookback_start(*rule, now);
    assert(from == match low {
        Some(l) => Some(l as int),
        None => None,
    });
    let mut total: usize = 0;
    let mut violations: usize = 0;
    let mut worst: u32 = 0;
    let mut i: usize = 0;
    assert(times@.take(0) =~= Seq::<Timestamp>::empty());
    while i < times.len()
        invariant
            i <= times@.len(),
            forall|k: int| 0 <= k < times@.len() ==> (#[trigger] times@[k]).valid(),
            from == (match low {
                Some(l) => Some(l as int),
                None => None,
            }),
            total <= i,
            violations <= i,
            total == count_in_span(times@.take(i as int), from, high as int),
            violations == count_out_of_window(times@.take(i as int), from, high as int, *rule),
            worst == first_hour_out(times@.take(i as int), from, high as int, *rule),
        decreases times@.len() - i,
    {
        proof {
            assert(times@.take(i + 1).drop_last() =~= times@.take(i as int));
            assert(times@.take(i + 1).last() == times@[i as int]);
        }
        if is_in_span(times[i], low, high) {
            total += 1;
            let hour = times[i].hour();
            if !is_in_time_window(hour, rule.start_hour, rule.end_hour) {
                if violations == 0 {
                    worst = hour;
                }
                violations += 1;
            }
        }
        i += 1;
    }
    assert(times@.take(times@.len() as int) =~= times@);
    if violations > rule.tolerance {
        let mut description = rule.node_type.clone();
        description.append(" ");
        description.append(history.node_id.as_str());
        description.append(" had ");
        description.append(decimal(violations as u64).as_str());
        description.append(" changes outside the ");
        description.append(decimal(rule.start_hour as u64).as_str());
        description.append("-");
        description.append(decimal(rule.end_hour as u64).as_str());
        description.append(" UTC window (");
        description.append(decimal(total as u64).as_str());
        description.append(" total changes)");
        let anomaly = Anomaly {
            kind: AnomalyKind::TimeWindowViolation {
                node_id: history.node_id.clone(),
                change_hour: worst,
                expected_start_hour: rule.start_hour,
                expected_end_hour: rule.end_hour,
                violations,
                total_changes: total,
            },
            description,
            severity: rule.severity,
            affected_nodes: one_node(&history.node_id),
            trigger_event: None,
            detected_at: now,
        };
        proof {
            pushed_models(anomalies@, anomaly);
        }
        anomalies.push(anomaly);
    }
}

impl AnomalyEngine {
    fn check_drift_rule(&self, rule: &DriftRule, histories: &Vec<NodeHistory>, now: Timestamp, anomalies: &mut Vec<Anomaly>)
        requires
            times_valid(histories@),
        ensures
            anomaly_models(final(anomalies)@) == anomaly_models(old(anomalies)@) + rule_drift(*rule, histories@, now),
    {
        let ghost before = anomaly_models(anomalies@);
        let ghost all = histories@;
        let mut i: usize = 0;
        assert(all.take(0) =~= Seq::<NodeHistory>::empty());
        assert(before + Seq::<AnomalyModel>::empty() =~= before);
        while i < histories.len()
            invariant
                times_valid(histories@),
                i <= histories@.len(),
                all == histories@,
                anomaly_models(anomalies@) == before + rule_drift(*rule, all.take(i as int), now),
            decreases histories@.len() - i,
        {
            let ghost found = rule_drift(*rule, all.take(i as int), now);
            proof {
                assert(all.take(i + 1).drop_last() =~= all.take(i as int));
                assert(all.take(i + 1).last() == all[i as int]);
            }
            check_drift(rule, histories, i, now, anomalies);
            proof {
                let next = drift_of(*rule, all[i as int], now);
                assert((before + found) + next =~= before + (found + next));
            }
            i += 1;
        }
        assert(all.take(all.len() as int) =~= all);
    }

    fn check_drift_batch(&self, histories: &Vec<NodeHistory>, now: Timestamp, anomalies: &mut Vec<Anomaly>)
        requires
            times_valid(histories@),
        ensures
            anomaly_models(final(anomalies)@) == anomaly_models(old(anomalies)@) + batch_drift(
                self.drift_rules@,
                histories@,
                now,
            ),
    {
        let ghost before = anomaly_models(anomalies@);
        let ghost rules = self.drift_rules@;
        let mut i: usize = 0;
        assert(rules.take(0) =~= Seq::<DriftRule>::empty());
        assert(before + Seq::<AnomalyModel>::empty() =~= before);
        while i < self.drift_rules.len()
            invariant
                times_valid(histories@),
                i <= self.drift_rules@.len(),
                rules == self.drift_rules@,
                anomaly_models(anomalies@) == before + batch_drift(rules.take(i as int), histories@, now),
            decreases self.drift_rules@.len() - i,
        {
            let ghost found = batch_drift(rules.take(i as int), histories@, now);
            proof {
                assert(rules.take(i + 1).drop_last() =~= rules.take(i as int));
                assert(rules.take(i + 1).last() == rules[i as int]);
            }
            self.check_drift_rule(&self.drift_rules[i], histories, now, anomalies);
            proof {
                let next = rule_drift(rules[i as int], histories@, now);
                assert((before + found) + next =~= before + (found + next));
            }
            i += 1;
        }
        assert(rules.take(rules.len() as int) =~= rules);
    }

    fn check_change_rate_rule(&self, rule: &ChangeRateRule, histories: &Vec<NodeHistory>, now: Timestamp, anomalies: &mut Vec<Anomaly>)
        ensures
            anomaly_models(final(anomalies)@) == anomaly_models(old(anomalies)@) + rule_change_rate(*rule, histories@, now),
    {
        let ghost before = anomaly_models(anomalies@);
        let ghost all = histories@;
        let mut i: usize = 0;
        assert(all.take(0) =~= Seq::<NodeHistory>::empty());
        assert(before + Seq::<AnomalyModel>::empty() =~= before);
        while i < histories.len()
            invariant
                i <= histories@.len(),
                all == histories@,
                anomaly_models(anomalies@) == before + rule_change_rate(*rule, all.take(i as int), now),
            decreases histories@.len() - i,
        {
            let ghost found = rule_change_rate(*rule, all.take(i as int), now);
            proof {
                assert(all.take(i + 1).drop_last() =~= all.take(i as int));
                assert(all.take(i + 1).last() == all[i as int]);
            }
            check_change_rate(rule, &histories[i], now, anomalies);
            proof {
                let next = change_rate_of(*rule, all[i as int], now);
                assert((before + found) + next =~= before + (found + next));
            }
            i += 1;
        }
        assert(all.take(all.len() as int) =~= all);
    }

    fn check_change_rate_batch(&self, histories: &Vec<NodeHistory>, now: Timestamp, anomalies: &mut Vec<Anomaly>)
        ensures
            anomaly_models(final(anomalies)@) == anomaly_models(old(anomalies)@) + batch_change_rate(
                self.change_rate_rules@,
                histories@,
                now,
            ),
    {
        let ghost before = anomaly_models(anomalies@);
        let ghost rules = self.change_rate_rules@;
        let mut i: usize = 0;
        assert(rules.take(0) =~= Seq::<ChangeRateRule>::empty());
        assert(before + Seq::<AnomalyModel>::empty() =~= before);
        while i < self.change_rate_rules.len()
            invariant
                i <= self.change_rate_rules@.len(),
                rules == self.change_rate_rules@,
                anomaly_models(anomalies@) == before + batch_change_rate(rules.take(i as int), histories@, now),
            decreases self.change_rate_rules@.len() - i,
        {
            let ghost found = batch_change_rate(rules.take(i as int), histories@, now);
            proof {
                assert(rules.take(i + 1).drop_last() =~= rules.take(i as int));
                assert(rules.take(i + 1).last() == rules[i as int]);
            }
            self.check_change_rate_rule(&self.change_rate_rules[i], histories, now, anomalies);
            proof {
                let next = rule_change_rate(rules[i as int], histories@, now);
                assert((before + found) + next =~= before + (found + next));
            }
            i += 1;
        }
        assert(rules.take(rules.len() as int) =~= rules);
    }

    fn check_time_window_rule(&self, rule: &TimeWindowRule, histories: &Vec<NodeHistory>, now: Timestamp, anomalies: &mut Vec<Anomaly>)
        requires
            times_valid(histories@),
        ensures
            anomaly_models(final(anomalies)@) == anomaly_models(old(anomalies)@) + rule_time_window(*rule, histories@, now),
    {
        let ghost before = anomaly_models(anomalies@);
        let ghost all = histories@;
        let mut i: usize = 0;
        assert(all.take(0) =~= Seq::<NodeHistory>::empty());
        assert(before + Seq::<AnomalyModel>::empty() =~= before);
        while i < histories.len()
            invariant
                times_valid(histories@),
                i <= histories@.len(),
                all == histories@,
                anomaly_models(anomalies@) == before + rule_time_window(*rule, all.take(i as int), now),
            decreases histories@.len() - i,
        {
            let ghost found = rule_time_window(*rule, all.take(i as int), now);
            proof {
                assert(all.take(i + 1).drop_last() =~= all.take(i as int));
                assert(all.take(i + 1).last() == all[i as int]);
            }
            check_time_window(rule, histories, i, now, anomalies);
            proof {
                let next = time_window_of(*rule, all[i as int], now);
                assert((before + found) + next =~= before + (found + next));
            }
            i += 1;
        }
        assert(all.take(all.len() as int) =~= all);
    }

    fn check_time_window_batch(&self, histories: &Vec<NodeHistory>, now: Timestamp, anomalies: &mut Vec<Anomaly>)
        requires
            times_valid(histories@),
        ensures
            anomaly_models(final(anomalies)@) == anomaly_models(old(anomalies)@) + batch_time_window(
                self.time_window_rules@,
                histories@,
                now,
            ),
    {
        let ghost before = anomaly_models(anomalies@);
        let ghost rules = self.time_window_rules@;
        let mut i: usize = 0;
        assert(rules.take(0) =~= Seq::<TimeWindowRule>::empty());
        assert(before + Seq::<AnomalyModel>::empty() =~= before);
        while i < self.time_window_rules.len()
            invariant
                times_valid(histories@),
                i <= self.time_window_rules@.len(),
                rules == self.time_window_rules@,
                anomaly_models(anomalies@) == before + batch_time_window(rules.take(i as int), histories@, now),
            decreases self.time_window_rules@.len() - i,
        {
            let ghost found = batch_time_window(rules.take(i as int), histories@, now);
            proof {
                assert(rules.take(i + 1).drop_last() =~= rules.take(i as int));
                assert(rules.take(i + 1).last() == rules[i as int]);
            }
            self.check_time_window_rule(&self.time_window_rules[i], histories, now, anomalies);
            proof {
                let next = rule_time_window(rules[i as int], histories@, now);
                assert((before + found) + next =~= before + (found + next));
            }
            i += 1;
        }
        assert(rules.take(rules.len() as int) =~= rules);
    }
}

/// Which of the events are about a node.
pub open spec fn about(events: Seq<EventModel>, node: Seq<char>) -> Seq<bool> {
    Seq::new(events.len(), |i: int| events[i].kind.target() == Some(node))
}

/// The identifiers of the chosen events and of all that these brought about.
pub open spec fn removal_set(events: Seq<EventModel>, chosen: Seq<bool>) -> Set<Seq<char>> {
    Set::new(
        |t: Seq<char>|
            exists|i: int, found: Seq<EventModel>|
                0 <= i < chosen.len() && #[trigger] chosen[i] && #[trigger] descendants(events, events[i].id, found)
                    && reached(events[i].id, found).contains(t),
    )
}

proof fn subtrees_are_the_removal_set(events: Seq<EventModel>, chosen: Seq<bool>, ids: Set<Seq<char>>)
    requires
        chosen_subtrees(events, chosen, ids),
    ensures
        ids == removal_set(events, chosen),
{
    assert forall|t: Seq<char>| #[trigger] ids.contains(t) <==> removal_set(events, chosen).contains(t) by {
        if removal_set(events, chosen).contains(t) {
            let (i, found): (int, Seq<EventModel>) = choose|i: int, found: Seq<EventModel>|
                0 <= i < chosen.len() && #[trigger] chosen[i] && #[trigger] descendants(events, events[i].id, found)
                    && reached(events[i].id, found).contains(t);
            assert(reached(events[i].id, found).to_set().subset_of(ids));
            assert(reached(events[i].id, found).to_set().contains(t));
        }
    }
    assert(ids =~= removal_set(events, chosen));
}

/// The number of nodes and edges in which two graphs differ, up to the greatest number.
pub open spec fn graph_impact(one: GraphModel, other: GraphModel) -> nat {
    let nodes = nodes_only_in(one, other).union(nodes_only_in(other, one)).union(nodes_differing(one, other));
    let edges = edges_only_in(one, other).union(edges_only_in(other, one)).union(edges_differing(one, other));
    capped(nodes.len() + edges.len())
}

/// The part of all events that was removed.
pub open spec fn removed_part(removed: nat, skipped: nat, replayed: nat) -> Number {
    let total = capped(removed + skipped + replayed);
    if total == 0 {
        Number { bits: 0 }
    } else {
        Number::part(removed, total)
    }
}

/// What a counterfactual rule finds of a node.
pub open spec fn outlier_of(
    rule: CounterfactualRule,
    graph: GraphModel,
    events: Seq<EventModel>,
    node: Seq<char>,
    now: Timestamp,
) -> Seq<AnomalyModel> {
    let chosen = about(events, node);
    let ids = removal_set(events, chosen);
    let other = replayed_graph(events, ids);
    let part = removed_part(ids.len(), replay_count(events, ids, false), replay_count(events, ids, true));
    let impact = graph_impact(graph, other);
    if chosen_count(chosen) == 0 || !(rule.min_removal_fraction.below(part) || rule.min_removal_fraction.equal(part)
        || impact >= rule.min_graph_impact) {
        Seq::empty()
    } else {
        seq![
            AnomalyModel {
                kind: AnomalyKindModel::CounterfactualOutlier {
                    source_node: node,
                    events_removed: ids.len() as usize,
                    graph_elements_affected: impact as usize,
                    removal_fraction: part,
                },
                description: rule.node_type@ + " "@ + node + " accounts for "@ + percent_text(part, 0)
                    + "% of events ("@ + decimal_text(ids.len()) + " removed). Removing them changes "@ + decimal_text(
                    impact,
                ) + " graph elements."@,
                severity: rule.severity,
                affected_nodes: seq![node],
                trigger_event: None,
                detected_at: now,
            },
        ]
    }
}

/// What a counterfactual rule finds of nodes.
pub open spec fn rule_outliers(
    rule: CounterfactualRule,
    graph: GraphModel,
    events: Seq<EventModel>,
    nodes: Seq<NodeModel>,
    now: Timestamp,
) -> Seq<AnomalyModel>
    decreases nodes.len(),
{
    if nodes.len() == 0 {
        Seq::empty()
    } else {
        rule_outliers(rule, graph, events, nodes.drop_last(), now) + outlier_of(
            rule,
            graph,
            events,
            nodes.last().id,
            now,
        )
    }
}

/// What the counterfactual rules find in the whole graph.
pub open spec fn batch_outliers(
    rules: Seq<CounterfactualRule>,
    graph: GraphModel,
    events: Seq<EventModel>,
    now: Timestamp,
) -> Seq<AnomalyModel>
    decreases rules.len(),
{
    if rules.len() == 0 {
        Seq::empty()
    } else {
        batch_outliers(rules.drop_last(), graph, events, now) + rule_outliers(
            rules.last(),
            graph,
            events,
            nodes_listed(graph, rules.last().node_type@),
            now,
        )
    }
}

/// Whether an edge leads to a living node of the pattern's target type that meets its
/// condition.
pub open spec fn leads_to_target(graph: GraphModel, rule: PatternRule, edge: EdgeModel) -> bool {
    &&& graph.has_node(edge.target)
    &&& graph.nodes[edge.target].type_id == rule.target_type@
    &&& rule.target_predicate is Some ==> predicate_holds(
        rule.target_predicate->0,
        graph.nodes[edge.target].properties,
    )
}

/// The targets of a pattern that edges lead to, one for each edge.
pub open spec fn targets_of(graph: GraphModel, rule: PatternRule, edges: Seq<EdgeModel>) -> Seq<Seq<char>>
    decreases edges.len(),
{
    if edges.len() == 0 {
        Seq::empty()
    } else {
        let before = targets_of(graph, rule, edges.drop_last());
        if leads_to_target(graph, rule, edges.last()) {
            before.push(edges.last().target)
        } else {
            before
        }
    }
}

/// The living edges of a type that leave a node, in ascending order of their identifiers.
pub open spec fn edges_listed(graph: GraphModel, node: Seq<char>, edge_type: Seq<char>) -> Seq<EdgeModel> {
    listing(graph.edges, graph.edges_from(node).intersect(graph.edges_of_type(edge_type)))
}

/// What a pattern rule finds at a node.
pub open spec fn pattern_of(
    graph: GraphModel,
    rule: PatternRule,
    node: NodeModel,
    trigger: Option<Seq<char>>,
    now: Timestamp,
) -> Seq<AnomalyModel> {
    let targets = targets_of(graph, rule, edges_listed(graph, node.id, rule.edge_type@));
    if node.type_id != rule.anchor_type@ || (rule.anchor_predicate is Some && !predicate_holds(
        rule.anchor_predicate->0,
        node.properties,
    )) || targets.len() < rule.min_fan_out {
        Seq::empty()
    } else {
        seq![
            AnomalyModel {
                kind: AnomalyKindModel::ForbiddenPattern {
                    anchor_node: node.id,
                    pattern_name: rule.name@,
                    fan_out: targets.len() as usize,
                    matched_targets: targets,
                },
                description: "Pattern '"@ + rule.name@ + "': "@ + rule.anchor_type@ + " "@ + node.id
                    + " fans out to "@ + decimal_text(targets.len()) + " '"@ + rule.target_type@ + "' nodes via '"@
                    + rule.edge_type@ + "' edges (threshold: "@ + decimal_text(rule.min_fan_out as nat) + ")"@,
                severity: rule.severity,
                affected_nodes: seq![node.id] + targets,
                trigger_event: trigger,
                detected_at: now,
            },
        ]
    }
}

/// What the pattern rules find at a node.
pub open spec fn node_patterns(
    graph: GraphModel,
    rules: Seq<PatternRule>,
    node: NodeModel,
    trigger: Option<Seq<char>>,
    now: Timestamp,
) -> Seq<AnomalyModel>
    decreases rules.len(),
{
    if rules.len() == 0 {
        Seq::empty()
    } else {
        node_patterns(graph, rules.drop_last(), node, trigger, now) + pattern_of(
            graph,
            rules.last(),
            node,
            trigger,
            now,
        )
    }
}

/// What the pattern rules find at the living nodes of a list.
pub open spec fn nodes_patterns(
    graph: GraphModel,
    rules: Seq<PatternRule>,
    ids: Seq<Seq<char>>,
    trigger: Option<Seq<char>>,
    now: Timestamp,
) -> Seq<AnomalyModel>
    decreases ids.len(),
{
    if ids.len() == 0 {
        Seq::empty()
    } else {
        let before = nodes_patterns(graph, rules, ids.drop_last(), trigger, now);
        if graph.has_node(ids.last()) {
            before + node_patterns(graph, rules, graph.nodes[ids.last()], trigger, now)
        } else {
            before
        }
    }
}

/// What the pattern rules find at nodes.
pub open spec fn listed_patterns(graph: GraphModel, rules: Seq<PatternRule>, nodes: Seq<NodeModel>, now: Timestamp) -> Seq<
    AnomalyModel,
>
    decreases nodes.len(),
{
    if nodes.len() == 0 {
        Seq::empty()
    } else {
        listed_patterns(graph, rules, nodes.drop_last(), now) + node_patterns(graph, rules, nodes.last(), None, now)
    }
}

/// The types at which patterns start, each once, in the order in which they first occur.
pub open spec fn anchor_types(rules: Seq<PatternRule>) -> Seq<Seq<char>>
    decreases rules.len(),
{
    if rules.len() == 0 {
        Seq::empty()
    } else {
        let before = anchor_types(rules.drop_last());
        if before.contains(rules.last().anchor_type@) {
            before
        } else {
            before.push(rules.last().anchor_type@)
        }
    }
}

/// What the pattern rules find at the living nodes of types.
pub open spec fn types_patterns(
    graph: GraphModel,
    rules: Seq<PatternRule>,
    types: Seq<Seq<char>>,
    now: Timestamp,
) -> Seq<AnomalyModel>
    decreases types.len(),
{
    if types.len() == 0 {
        Seq::empty()
    } else {
        types_patterns(graph, rules, types.drop_last(), now) + listed_patterns(
            graph,
            rules,
            nodes_listed(graph, types.last()),
            now,
        )
    }
}

/// What the pattern rules find in the whole graph.
pub open spec fn batch_patterns(graph: GraphModel, rules: Seq<PatternRule>, now: Timestamp) -> Seq<AnomalyModel> {
    types_patterns(graph, rules, anchor_types(rules), now)
}

proof fn named_set(ids: Seq<Seq<char>>, wanted: Set<Seq<char>>)
    requires
        forall|t: Seq<char>| #[trigger] ids.contains(t) <==> wanted.contains(t),
    ensures
        ids.to_set() == wanted,
{
    assert(ids.to_set() =~= wanted);
}

fn measure_impact(one: &Projection, other: &Projection) -> (r: usize)
    requires
        one.inv(),
        other.inv(),
    ensures
        r == graph_impact(one@, other@),
{
    let diff = diff_projections(one, other);
    proof {
        named_set(texts(diff.nodes_only_in_actual@), nodes_only_in(one@, other@));
        named_set(texts(diff.nodes_only_in_counterfactual@), nodes_only_in(other@, one@));
        named_set(changed_nodes(diff.nodes_changed@), nodes_differing(one@, other@));
        named_set(texts(diff.edges_only_in_actual@), edges_only_in(one@, other@));
        named_set(texts(diff.edges_only_in_counterfactual@), edges_only_in(other@, one@));
        named_set(changed_edges(diff.edges_changed@), edges_differing(one@, other@));
    }
    diff.total_affected()
}

fn check_outlier(
    rule: &CounterfactualRule,
    graph: &Projection,
    event_log: &EventLog,
    node: &NodeId,
    now: Timestamp,
    anomalies: &mut Vec<Anomaly>,
)
    requires
        graph.inv(),
        event_log.inv(),
    ensures
        anomaly_models(final(anomalies)@) == anomaly_models(old(anomalies)@) + outlier_of(
            *rule,
            graph@,
            event_log@.events,
            node@,
            now,
        ),
{
    let ghost before = anomaly_models(anomalies@);
    let ghost events = event_log@.events;
    assert(before + Seq::<AnomalyModel>::empty() =~= before);
    let aimed = |event: &Event| -> (r: bool)
        ensures
            r == (event.kind.target() == Some(node@)),
        {
            match event.kind.target_node() {
                Some(id) => id.same(node),
                None => false,
            }
        };
    let ghost wanted = aimed;
    let result = counterfactual_filter(event_log, aimed);
    let ghost chosen = about(events, node@);
    proof {
        let (marks, ids): (Seq<bool>, Set<Seq<char>>) = choose|marks: Seq<bool>, ids: Set<Seq<char>>| #[trigger]
            is_filtered(result, events, marks, ids) && marks.len() == events.len() && forall|i: int|
                0 <= i < marks.len() ==> call_ensures(wanted, (&event_log.events@[i],), #[trigger] marks[i]);
        assert forall|i: int| 0 <= i < marks.len() implies marks[i] == chosen[i] by {
            assert(call_ensures(wanted, (&event_log.events@[i],), marks[i]));
            assert(events[i].kind == event_log.events@[i].kind);
        }
        assert(marks =~= chosen);
        subtrees_are_the_removal_set(events, chosen, ids);
        assert(is_filtered(result, events, chosen, removal_set(events, chosen)));
    }
    if result.roots_matched == 0 {
        return;
    }
    let part = result.removal_fraction();
    let impact = measure_impact(graph, &result.projection);
    if rule.min_removal_fraction.le(part) || impact >= rule.min_graph_impact {
        let mut description = rule.node_type.clone();
        description.append(" ");
        description.append(node.as_str());
        description.append(" accounts for ");
        description.append(percent(part, 0).as_str());
        description.append("% of events (");
        description.append(decimal(result.events_removed as u64).as_str());
        description.append(" removed). Removing them changes ");
        description.append(decimal(impact as u64).as_str());
        description.append(" graph elements.");
        let anomaly = Anomaly {
            kind: AnomalyKind::CounterfactualOutlier {
                source_node: node.clone(),
                events_removed: result.events_removed,
                graph_elements_affected: impact,
                removal_fraction: part,
            },
            description,
            severity: rule.severity,
            affected_nodes: one_node(node),
            trigger_event: None,
            detected_at: now,
        };
        proof {
            pushed_models(anomalies@, anomaly);
        }
        anomalies.push(anomaly);
    }
}

fn find_targets(graph: &Projection, rule: &PatternRule, node: &NodeId) -> (r: Vec<NodeId>)
    requires
        graph.inv(),
    ensures
        texts(r@) == targets_of(graph@, *rule, edges_listed(graph@, node@, rule.edge_type@)),
{
    let edges = graph.outgoing_edges_of_type(node, rule.edge_type.as_str());
    let ghost all = edges_listed(graph@, node@, rule.edge_type@);
    proof {
        law_listing_is_unique(
            views(edges@),
            graph@.edges,
            graph@.edges_from(node@).intersect(graph@.edges_of_type(rule.edge_type@)),
        );
    }
    let mut r: Vec<NodeId> = Vec::new();
    let mut i: usize = 0;
    assert(all.take(0) =~= Seq::<EdgeModel>::empty());
    assert(texts(r@) =~= Seq::<Seq<char>>::empty());
    while i < edges.len()
        invariant
            graph.inv(),
            i <= edges@.len(),
            all == views(edges@),
            texts(r@) == targets_of(graph@, *rule, all.take(i as int)),
        decreases edges@.len() - i,
    {
        proof {
            assert(all.take(i + 1).drop_last() =~= all.take(i as int));
            assert(all.take(i + 1).last() == edges@[i as int]@);
        }
        if let Some(target) = graph.node(&edges[i].target) {
            let fits = match &rule.target_predicate {
                Some(predicate) => predicate.matches(target),
                None => true,
            };
            if target.alive && str_same(target.type_id.as_str(), rule.target_type.as_str()) && fits {
                let ghost before = texts(r@);
                assert(graph@.nodes.contains_key(edges@[i as int]@.target));
                r.push(target.id.clone());
                assert(texts(r@) =~= before.push(edges@[i as int]@.target));
            }
        }
        i += 1;
    }
    assert(all.take(all.len() as int) =~= all);
    r
}

fn check_pattern(
    graph: &Projection,
    rule: &PatternRule,
    node: &Node,
    trigger: &Option<EventId>,
    now: Timestamp,
    anomalies: &mut Vec<Anomaly>,
)
    requires
        graph.inv(),
    ensures
        anomaly_models(final(anomalies)@) == anomaly_models(old(anomalies)@) + pattern_of(
            graph@,
            *rule,
            node@,
            opt_text(*trigger),
            now,
        ),
{
    let ghost before = anomaly_models(anomalies@);
    assert(before + Seq::<AnomalyModel>::empty() =~= before);
    if !str_same(node.type_id.as_str(), rule.anchor_type.as_str()) {
        return;
    }
    if let Some(predicate) = &rule.anchor_predicate {
        if !predicate.matches(node) {
            return;
        }
    }
    let targets = find_targets(graph, rule, &node.id);
    if targets.len() >= rule.min_fan_out {
        let mut description = "Pattern '".to_owned();
        description.append(rule.name.as_str());
        description.append("': ");
        description.append(rule.anchor_type.as_str());
        description.append(" ");
        description.append(node.id.as_str());
        description.append(" fans out to ");
        description.append(decimal(targets.len() as u64).as_str());
        description.append(" '");
        description.append(rule.target_type.as_str());
        description.append("' nodes via '");
        description.append(rule.edge_type.as_str());
        description.append("' edges (threshold: ");
        description.append(decimal(rule.min_fan_out as u64).as_str());
        description.append(")");
        let mut affected_nodes = one_node(&node.id);
        let mut others = clone_ids(&targets);
        let ghost all = texts(affected_nodes@) + texts(others@);
        affected_nodes.append(&mut others);
        assert(texts(affected_nodes@) =~= all);
        let anomaly = Anomaly {
            kind: AnomalyKind::ForbiddenPattern {
                anchor_node: node.id.clone(),
                pattern_name: rule.name.clone(),
                fan_out: targets.len(),
                matched_targets: targets,
            },
            description,
            severity: rule.severity,
            affected_nodes,
            trigger_event: clone_opt_id(trigger),
            detected_at: now,
        };
        proof {
            pushed_models(anomalies@, anomaly);
        }
        anomalies.push(anomaly);
    }
}

fn list_anchor_types(rules: &Vec<PatternRule>) -> (r: Vec<Id>)
    ensures
        texts(r@) == anchor_types(rules@),
{
    let ghost all = rules@;
    let mut r: Vec<Id> = Vec::new();
    let mut i: usize = 0;
    assert(all.take(0) =~= Seq::<PatternRule>::empty());
    assert(texts(r@) =~= Seq::<Seq<char>>::empty());
    while i < rules.len()
        invariant
            i <= rules@.len(),
            all == rules@,
            texts(r@) == anchor_types(all.take(i as int)),
        decreases rules@.len() - i,
    {
        proof {
            assert(all.take(i + 1).drop_last() =~= all.take(i as int));
            assert(all.take(i + 1).last() == all[i as int]);
        }
        let kind = Id::from_str(rules[i].anchor_type.as_str());
        if !holds_id(&r, &kind) {
            let ghost before = texts(r@);
            let ghost t = kind@;
            r.push(kind);
            assert(texts(r@) =~= before.push(t));
        }
        i += 1;
    }
    assert(all.take(all.len() as int) =~= all);
    r
}

impl AnomalyEngine {
    fn check_counterfactual_rule(
        &self,
        rule: &CounterfactualRule,
        graph: &Projection,
        event_log: &EventLog,
        now: Timestamp,
        anomalies: &mut Vec<Anomaly>,
    )
        requires
            graph.inv(),
            event_log.inv(),
        ensures
            anomaly_models(final(anomalies)@) == anomaly_models(old(anomalies)@) + rule_outliers(
                *rule,
                graph@,
                event_log@.events,
                nodes_listed(graph@, rule.node_type@),
                now,
            ),
    {
        let ghost before = anomaly_models(anomalies@);
        let ghost events = event_log@.events;
        let nodes = graph.nodes_by_type(rule.node_type.as_str());
        let ghost all = nodes_listed(graph@, rule.node_type@);
        proof {
            law_listing_is_unique(views(nodes@), graph@.nodes, graph@.nodes_of_type(rule.node_type@));
        }
        let mut i: usize = 0;
        assert(all.take(0) =~= Seq::<NodeModel>::empty());
        assert(before + Seq::<AnomalyModel>::empty() =~= before);
        while i < nodes.len()
            invariant
                graph.inv(),
                event_log.inv(),
                events == event_log@.events,
                i <= nodes@.len(),
                all == views(nodes@),
                anomaly_models(anomalies@) == before + rule_outliers(*rule, graph@, events, all.take(i as int), now),
            decreases nodes@.len() - i,
        {
            let ghost found = rule_outliers(*rule, graph@, events, all.take(i as int), now);
            proof {
                assert(all.take(i + 1).drop_last() =~= all.take(i as int));
                assert(all.take(i + 1).last() == nodes@[i as int]@);
            }
            check_outlier(rule, graph, event_log, &nodes[i].id, now, anomalies);
            proof {
                let next = outlier_of(*rule, graph@, events, nodes@[i as int]@.id, now);
                assert((before + found) + next =~= before + (found + next));
            }
            i += 1;
        }
        assert(all.take(all.len() as int) =~= all);
    }

    fn check_counterfactual_batch(
        &self,
        graph: &Projection,
        event_log: &EventLog,
        now: Timestamp,
        anomalies: &mut Vec<Anomaly>,
    )
        requires
            graph.inv(),
            event_log.inv(),
        ensures
            anomaly_models(final(anomalies)@) == anomaly_models(old(anomalies)@) + batch_outliers(
                self.counterfactual_rules@,
                graph@,
                event_log@.events,
                now,
            ),
    {
        let ghost before = anomaly_models(anomalies@);
        let ghost rules = self.counterfactual_rules@;
        let ghost events = event_log@.events;
        let mut i: usize = 0;
        assert(rules.take(0) =~= Seq::<CounterfactualRule>::empty());
        assert(before + Seq::<AnomalyModel>::empty() =~= before);
        while i < self.counterfactual_rules.len()
            invariant
                graph.inv(),
                event_log.inv(),
                events == event_log@.events,
                i <= self.counterfactual_rules@.len(),
                rules == self.counterfactual_rules@,
                anomaly_models(anomalies@) == before + batch_outliers(rules.take(i as int), graph@, events, now),
            decreases self.counterfactual_rules@.len() - i,
        {
            let ghost found = batch_outliers(rules.take(i as int), graph@, events, now);
            proof {
                assert(rules.take(i + 1).drop_last() =~= rules.take(i as int));
                assert(rules.take(i + 1).last() == rules[i as int]);
            }
            self.check_counterfactual_rule(&self.counterfactual_rules[i], graph, event_log, now, anomalies);
            proof {
                let next = rule_outliers(
                    rules[i as int],
                    graph@,
                    events,
                    nodes_listed(graph@, rules[i as int].node_type@),
                    now,
                );
                assert((before + found) + next =~= before + (found + next));
            }
            i += 1;
        }
        assert(rules.take(rules.len() as int) =~= rules);
    }

    fn match_patterns_for_node(
        &self,
        node: &Node,
        graph: &Projection,
        trigger: &Option<EventId>,
        now: Timestamp,
        anomalies: &mut Vec<Anomaly>,
    )
        requires
            graph.inv(),
        ensures
            anomaly_models(final(anomalies)@) == anomaly_models(old(anomalies)@) + node_patterns(
                graph@,
                self.pattern_rules@,
                node@,
                opt_text(*trigger),
                now,
            ),
    {
        let ghost before = anomaly_models(anomalies@);
        let ghost rules = self.pattern_rules@;
        let mut i: usize = 0;
        assert(rules.take(0) =~= Seq::<PatternRule>::empty());
        assert(before + Seq::<AnomalyModel>::empty() =~= before);
        while i < self.pattern_rules.len()
            invariant
                graph.inv(),
                i <= self.pattern_rules@.len(),
                rules == self.pattern_rules@,
                anomaly_models(anomalies@) == before + node_patterns(
                    graph@,
                    rules.take(i as int),
                    node@,
                    opt_text(*trigger),
                    now,
                ),
            decreases self.pattern_rules@.len() - i,
        {
            let ghost found = node_patterns(graph@, rules.take(i as int), node@, opt_text(*trigger), now);
            proof {
                assert(rules.take(i + 1).drop_last() =~= rules.take(i as int));
                assert(rules.take(i + 1).last() == rules[i as int]);
            }
            check_pattern(graph, &self.pattern_rules[i], node, trigger, now, anomalies);
            proof {
                let next = pattern_of(graph@, rules[i as int], node@, opt_text(*trigger), now);
                assert((before + found) + next =~= before + (found + next));
            }
            i += 1;
        }
        assert(rules.take(rules.len() as int) =~= rules);
    }

    fn check_patterns_for_cascade(
        &self,
        result: &CascadeResult,
        graph: &Projection,
        now: Timestamp,
        anomalies: &mut Vec<Anomaly>,
    )
        requires
            graph.inv(),
        ensures
            anomaly_models(final(anomalies)@) == anomaly_models(old(anomalies)@) + nodes_patterns(
                graph@,
                self.pattern_rules@,
                affected(event_models(result.events@)),
                first_event(event_models(result.events@)),
                now,
            ),
    {
        let ghost before = anomaly_models(anomalies@);
        let nodes = affected_nodes(&result.events);
        let trigger = trigger_of(&result.events);
        let ghost ids = texts(nodes@);
        let mut i: usize = 0;
        assert(ids.take(0) =~= Seq::<Seq<char>>::empty());
        assert(before + Seq::<AnomalyModel>::empty() =~= before);
        while i < nodes.len()
            invariant
                graph.inv(),
                i <= nodes@.len(),
                ids == texts(nodes@),
                anomaly_models(anomalies@) == before + nodes_patterns(
                    graph@,
                    self.pattern_rules@,
                    ids.take(i as int),
                    opt_text(trigger),
                    now,
                ),
            decreases nodes@.len() - i,
        {
            let ghost found = nodes_patterns(graph@, self.pattern_rules@, ids.take(i as int), opt_text(trigger), now);
            proof {
                assert(ids.take(i + 1).drop_last() =~= ids.take(i as int));
                assert(ids.take(i + 1).last() == nodes@[i as int]@);
            }
            if let Some(node) = graph.node(&nodes[i]) {
                if node.alive {
                    self.match_patterns_for_node(node, graph, &trigger, now, anomalies);
                    proof {
                        let next = node_patterns(graph@, self.pattern_rules@, node@, opt_text(trigger), now);
                        assert((before + found) + next =~= before + (found + next));
                    }
                }
            }
            i += 1;
        }
        assert(ids.take(ids.len() as int) =~= ids);
    }

    fn check_patterns_of_type(&self, anchor_type: &str, graph: &Projection, now: Timestamp, anomalies: &mut Vec<Anomaly>)
        requires
            graph.inv(),
        ensures
            anomaly_models(final(anomalies)@) == anomaly_models(old(anomalies)@) + listed_patterns(
                graph@,
                self.pattern_rules@,
                nodes_listed(graph@, anchor_type@),
                now,
            ),
    {
        let ghost before = anomaly_models(anomalies@);
        let nodes = graph.nodes_by_type(anchor_type);
        let ghost all = nodes_listed(graph@, anchor_type@);
        proof {
            law_listing_is_unique(views(nodes@), graph@.nodes, graph@.nodes_of_type(anchor_type@));
        }
        let mut i: usize = 0;
        assert(all.take(0) =~= Seq::<NodeModel>::empty());
        assert(before + Seq::<AnomalyModel>::empty() =~= before);
        while i < nodes.len()
            invariant
                graph.inv(),
                i <= nodes@.len(),
                all == views(nodes@),
                anomaly_models(anomalies@) == before + listed_patterns(
                    graph@,
                    self.pattern_rules@,
                    all.take(i as int),
                    now,
                ),
            decreases nodes@.len() - i,
        {
            let ghost found = listed_patterns(graph@, self.pattern_rules@, all.take(i as int), now);
            proof {
                assert(all.take(i + 1).drop_last() =~= all.take(i as int));
                assert(all.take(i + 1).last() == nodes@[i as int]@);
            }
            self.match_patterns_for_node(nodes[i], graph, &None, now, anomalies);
            proof {
                let next = node_patterns(graph@, self.pattern_rules@, nodes@[i as int]@, None, now);
                assert((before + found) + next =~= before + (found + next));
            }
            i += 1;
        }
        assert(all.take(all.len() as int) =~= all);
    }

    fn check_patterns_batch(&self, graph: &Projection, now: Timestamp, anomalies: &mut Vec<Anomaly>)
        requires
            graph.inv(),
        ensures
            anomaly_models(final(anomalies)@) == anomaly_models(old(anomalies)@) + batch_patterns(
                graph@,
                self.pattern_rules@,
                now,
            ),
    {
        let ghost before = anomaly_models(anomalies@);
        let types = list_anchor_types(&self.pattern_rules);
        let ghost all = texts(types@);
        let mut i: usize = 0;
        assert(all.take(0) =~= Seq::<Seq<char>>::empty());
        assert(before + Seq::<AnomalyModel>::empty() =~= before);
        while i < types.len()
            invariant
                graph.inv(),
                i <= types@.len(),
                all == texts(types@),
                anomaly_models(anomalies@) == before + types_patterns(
                    graph@,
                    self.pattern_rules@,
                    all.take(i as int),
                    now,
                ),
            decreases types@.len() - i,
        {
            let ghost found = types_patterns(graph@, self.pattern_rules@, all.take(i as int), now);
            proof {
                assert(all.take(i + 1).drop_last() =~= all.take(i as int));
                assert(all.take(i + 1).last() == types@[i as int]@);
            }
            self.check_patterns_of_type(types[i].as_str(), graph, now, anomalies);
            proof {
                let next = listed_patterns(graph@, self.pattern_rules@, nodes_listed(graph@, types@[i as int]@), now);
                assert((before + found) + next =~= before + (found + next));
            }
            i += 1;
        }
        assert(all.take(all.len() as int) =~= all);
    }

    /// What is out of the ordinary about a cascade and the nodes that it touched.
    pub fn analyze_cascade(&self, result: &CascadeResult, graph: &Projection, now: Timestamp) -> (r: Vec<Anomaly>)
        requires
            graph.inv(),
        ensures
            anomaly_models(r@) == cascade_anomalies(
                *self,
                event_models(result.events@),
                result.max_depth_reached,
                graph@,
                now,
            ),
    {
        let mut anomalies: Vec<Anomaly> = Vec::new();
        assert(anomaly_models(anomalies@) =~= Seq::<AnomalyModel>::empty());
        self.check_cascade_amplification(result, now, &mut anomalies);
        assert(anomaly_models(anomalies@) =~= amplification(
            self.cascade_rule,
            event_models(result.events@),
            result.max_depth_reached,
            now,
        ));
        self.check_topology_for_cascade(result, graph, now, &mut anomalies);
        self.check_patterns_for_cascade(result, graph, now, &mut anomalies);
        anomalies
    }

    /// What is out of the ordinary in the graph, in the histories of its nodes and in the
    /// log.
    pub fn analyze_batch(
        &self,
        projection: &Projection,
        histories: &Vec<NodeHistory>,
        event_log: &EventLog,
        now: Timestamp,
    ) -> (r: Vec<Anomaly>)
        requires
            projection.inv(),
            event_log.inv(),
            times_valid(histories@),
        ensures
            anomaly_models(r@) == batch_anomalies(*self, projection@, histories@, event_log@.events, now),
    {
        let mut anomalies: Vec<Anomaly> = Vec::new();
        assert(anomaly_models(anomalies@) =~= Seq::<AnomalyModel>::empty());
        self.check_topology_batch(projection, now, &mut anomalies);
        assert(anomaly_models(anomalies@) =~= batch_topology(projection@, self.topology_rules@, now));
        self.check_drift_batch(histories, now, &mut anomalies);
        self.check_change_rate_batch(histories, now, &mut anomalies);
        self.check_time_window_batch(histories, now, &mut anomalies);
        self.check_counterfactual_batch(projection, event_log, now, &mut anomalies);
        self.check_patterns_batch(projection, now, &mut anomalies);
        anomalies
    }
}

/// What the rules find about a cascade: its size, the topology and the patterns at the
/// nodes that it touched.
pub open spec fn cascade_anomalies(
    engine: AnomalyEngine,
    events: Seq<EventModel>,
    depth: u32,
    graph: GraphModel,
    now: Timestamp,
) -> Seq<AnomalyModel> {
    amplification(engine.cascade_rule, events, depth, now) + nodes_topology(
        graph,
        engine.topology_rules@,
        affected(events),
        first_event(events),
        now,
    ) + nodes_patterns(graph, engine.pattern_rules@, affected(events), first_event(events), now)
}

/// What the rules find in all: topology, drift, change rate, time windows, outliers and
/// patterns.
pub open spec fn batch_anomalies(
    engine: AnomalyEngine,
    graph: GraphModel,
    histories: Seq<NodeHistory>,
    events: Seq<EventModel>,
    now: Timestamp,
) -> Seq<AnomalyModel> {
    batch_topology(graph, engine.topology_rules@, now) + batch_drift(engine.drift_rules@, histories, now)
        + batch_change_rate(engine.change_rate_rules@, histories, now) + batch_time_window(
        engine.time_window_rules@,
        histories,
        now,
    ) + batch_outliers(engine.counterfactual_rules@, graph, events, now) + batch_patterns(
        graph,
        engine.pattern_rules@,
        now,
    )
}

/// Without rules of its own an engine finds nothing in a batch.
pub proof fn law_no_rules_no_anomalies(
    engine: AnomalyEngine,
    graph: GraphModel,
    histories: Seq<NodeHistory>,
    events: Seq<EventModel>,
    now: Timestamp,
)
    requires
        engine.rules() == 1,
    ensures
        batch_anomalies(engine, graph, histories, events, now) == Seq::<AnomalyModel>::empty(),
{
    assert(anchor_types(engine.pattern_rules@).len() == 0);
    assert(batch_anomalies(engine, graph, histories, events, now) =~= Seq::<AnomalyModel>::empty());
}

/// A cascade within the limits is no anomaly of size, and one beyond a limit is.
pub proof fn law_amplification_is_exact(rule: CascadeRule, events: Seq<EventModel>, depth: u32, now: Timestamp)
    ensures
        amplification(rule, events, depth, now).len() == 0 <==> (events.len() <= rule.max_event_count && depth
            <= rule.max_depth),
{
}

} // verus!
