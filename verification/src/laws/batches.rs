//! Laws of whole analyses: what a rule finds is reported, and nothing is reported that no rule
//! finds.

use crate::anomaly::{
    affected, amplification, anchor_types, batch_anomalies, batch_change_rate, batch_drift, batch_outliers,
    batch_patterns, batch_time_window, batch_topology, cascade_anomalies, change_rate_of, drift_of, first_event,
    listed_patterns, node_patterns, node_topology, nodes_listed, nodes_patterns, nodes_topology, outlier_of, pattern_of,
    rule_change_rate, rule_drift, rule_outliers, rule_time_window, rule_topology, time_window_of, topology_check,
    types_patterns, AnomalyEngine,
};
use crate::anomaly_rules::{
    AnomalyModel, ChangeRateRule, CounterfactualRule, DriftRule, NodeHistory, PatternRule, TimeWindowRule, TopologyRule,
};
use crate::event::EventModel;
use crate::graph::NodeModel;
use crate::laws::orders::law_finite_sets_have_an_order;
use crate::projection::GraphModel;
use crate::time::Timestamp;
use vstd::prelude::*;

verus! {

proof fn held_before(a: Seq<AnomalyModel>, b: Seq<AnomalyModel>, x: AnomalyModel)
    ensures
        (a + b).contains(x) <==> a.contains(x) || b.contains(x),
{
    if a.contains(x) {
        assert((a + b)[a.index_of(x)] == x);
    }
    if b.contains(x) {
        assert((a + b)[a.len() + b.index_of(x)] == x);
    }
    if (a + b).contains(x) {
        let i = (a + b).index_of(x);
        if i < a.len() {
            assert(a[i] == x);
        } else {
            assert(b[i - a.len()] == x);
        }
    }
}

/// Some history holds the anomaly, by the rule.
pub open spec fn change_rates_hold(rule: ChangeRateRule, histories: Seq<NodeHistory>, now: Timestamp, x: AnomalyModel) -> bool {
    exists|j: int| 0 <= j < histories.len() && #[trigger] change_rate_of(rule, histories[j], now).contains(x)
}

proof fn change_rates_of_a_rule(rule: ChangeRateRule, histories: Seq<NodeHistory>, now: Timestamp, x: AnomalyModel)
    ensures
        rule_change_rate(rule, histories, now).contains(x) <==> change_rates_hold(rule, histories, now, x),
    decreases histories.len(),
{
    if histories.len() > 0 {
        let fewer = histories.drop_last();
        let last = histories.len() - 1;
        change_rates_of_a_rule(rule, fewer, now, x);
        held_before(rule_change_rate(rule, fewer, now), change_rate_of(rule, histories.last(), now), x);
        if change_rates_hold(rule, fewer, now, x) {
            let j = choose|j: int| 0 <= j < fewer.len() && #[trigger] change_rate_of(rule, fewer[j], now).contains(x);
            assert(change_rate_of(rule, histories[j], now).contains(x));
        }
        if change_rates_hold(rule, histories, now, x) {
            let j = choose|j: int| 0 <= j < histories.len() && #[trigger] change_rate_of(rule, histories[j], now).contains(x);
            if j < last {
                assert(change_rate_of(rule, fewer[j], now).contains(x));
            }
        }
        if change_rate_of(rule, histories.last(), now).contains(x) {
            assert(change_rate_of(rule, histories[last], now).contains(x));
        }
    }
}

/// The rules report just what one of them finds in one of the histories.
pub proof fn law_change_rates_are_reported(rules: Seq<ChangeRateRule>, histories: Seq<NodeHistory>, now: Timestamp, x: AnomalyModel)
    ensures
        batch_change_rate(rules, histories, now).contains(x) <==> exists|i: int|
            0 <= i < rules.len() && change_rates_hold(#[trigger] rules[i], histories, now, x),
    decreases rules.len(),
{
    if rules.len() > 0 {
        let fewer = rules.drop_last();
        let last = rules.len() - 1;
        law_change_rates_are_reported(fewer, histories, now, x);
        change_rates_of_a_rule(rules.last(), histories, now, x);
        held_before(batch_change_rate(fewer, histories, now), rule_change_rate(rules.last(), histories, now), x);
        if exists|i: int| 0 <= i < fewer.len() && change_rates_hold(#[trigger] fewer[i], histories, now, x) {
            let i = choose|i: int| 0 <= i < fewer.len() && change_rates_hold(#[trigger] fewer[i], histories, now, x);
            assert(rules[i] == fewer[i]);
        }
        if exists|i: int| 0 <= i < rules.len() && change_rates_hold(#[trigger] rules[i], histories, now, x) {
            let i = choose|i: int| 0 <= i < rules.len() && change_rates_hold(#[trigger] rules[i], histories, now, x);
            if i < last {
                assert(fewer[i] == rules[i]);
            }
        }
        if change_rates_hold(rules.last(), histories, now, x) {
            assert(rules[last] == rules.last());
        }
    }
}

/// Some history holds the anomaly, by the rule.
pub open spec fn drifts_hold(rule: DriftRule, histories: Seq<NodeHistory>, now: Timestamp, x: AnomalyModel) -> bool {
    exists|j: int| 0 <= j < histories.len() && #[trigger] drift_of(rule, histories[j], now).contains(x)
}

proof fn drifts_of_a_rule(rule: DriftRule, histories: Seq<NodeHistory>, now: Timestamp, x: AnomalyModel)
    ensures
        rule_drift(rule, histories, now).contains(x) <==> drifts_hold(rule, histories, now, x),
    decreases histories.len(),
{
    if histories.len() > 0 {
        let fewer = histories.drop_last();
        let last = histories.len() - 1;
        drifts_of_a_rule(rule, fewer, now, x);
        held_before(rule_drift(rule, fewer, now), drift_of(rule, histories.last(), now), x);
        if drifts_hold(rule, fewer, now, x) {
            let j = choose|j: int| 0 <= j < fewer.len() && #[trigger] drift_of(rule, fewer[j], now).contains(x);
            assert(drift_of(rule, histories[j], now).contains(x));
        }
        if drifts_hold(rule, histories, now, x) {
            let j = choose|j: int| 0 <= j < histories.len() && #[trigger] drift_of(rule, histories[j], now).contains(x);
            if j < last {
                assert(drift_of(rule, fewer[j], now).contains(x));
            }
        }
        if drift_of(rule, histories.last(), now).contains(x) {
            assert(drift_of(rule, histories[last], now).contains(x));
        }
    }
}

/// The rules report just what one of them finds in one of the histories.
pub proof fn law_drifts_are_reported(rules: Seq<DriftRule>, histories: Seq<NodeHistory>, now: Timestamp, x: AnomalyModel)
    ensures
        batch_drift(rules, histories, now).contains(x) <==> exists|i: int|
            0 <= i < rules.len() && drifts_hold(#[trigger] rules[i], histories, now, x),
    decreases rules.len(),
{
    if rules.len() > 0 {
        let fewer = rules.drop_last();
        let last = rules.len() - 1;
        law_drifts_are_reported(fewer, histories, now, x);
        drifts_of_a_rule(rules.last(), histories, now, x);
        held_before(batch_drift(fewer, histories, now), rule_drift(rules.last(), histories, now), x);
        if exists|i: int| 0 <= i < fewer.len() && drifts_hold(#[trigger] fewer[i], histories, now, x) {
            let i = choose|i: int| 0 <= i < fewer.len() && drifts_hold(#[trigger] fewer[i], histories, now, x);
            assert(rules[i] == fewer[i]);
        }
        if exists|i: int| 0 <= i < rules.len() && drifts_hold(#[trigger] rules[i], histories, now, x) {
            let i = choose|i: int| 0 <= i < rules.len() && drifts_hold(#[trigger] rules[i], histories, now, x);
            if i < last {
                assert(fewer[i] == rules[i]);
            }
        }
        if drifts_hold(rules.last(), histories, now, x) {
            assert(rules[last] == rules.last());
        }
    }
}

/// Some history holds the anomaly, by the rule.
pub open spec fn time_windows_hold(rule: TimeWindowRule, histories: Seq<NodeHistory>, now: Timestamp, x: AnomalyModel) -> bool {
    exists|j: int| 0 <= j < histories.len() && #[trigger] time_window_of(rule, histories[j], now).contains(x)
}

proof fn time_windows_of_a_rule(rule: TimeWindowRule, histories: Seq<NodeHistory>, now: Timestamp, x: AnomalyModel)
    ensures
        rule_time_window(rule, histories, now).contains(x) <==> time_windows_hold(rule, histories, now, x),
    decreases histories.len(),
{
    if histories.len() > 0 {
        let fewer = histories.drop_last();
        let last = histories.len() - 1;
        time_windows_of_a_rule(rule, fewer, now, x);
        held_before(rule_time_window(rule, fewer, now), time_window_of(rule, histories.last(), now), x);
        if time_windows_hold(rule, fewer, now, x) {
            let j = choose|j: int| 0 <= j < fewer.len() && #[trigger] time_window_of(rule, fewer[j], now).contains(x);
            assert(time_window_of(rule, histories[j], now).contains(x));
        }
        if time_windows_hold(rule, histories, now, x) {
            let j = choose|j: int| 0 <= j < histories.len() && #[trigger] time_window_of(rule, histories[j], now).contains(x);
            if j < last {
                assert(time_window_of(rule, fewer[j], now).contains(x));
            }
        }
        if time_window_of(rule, histories.last(), now).contains(x) {
            assert(time_window_of(rule, histories[last], now).contains(x));
        }
    }
}

/// The rules report just what one of them finds in one of the histories.
pub proof fn law_time_windows_are_reported(rules: Seq<TimeWindowRule>, histories: Seq<NodeHistory>, now: Timestamp, x: AnomalyModel)
    ensures
        batch_time_window(rules, histories, now).contains(x) <==> exists|i: int|
            0 <= i < rules.len() && time_windows_hold(#[trigger] rules[i], histories, now, x),
    decreases rules.len(),
{
    if rules.len() > 0 {
        let fewer = rules.drop_last();
        let last = rules.len() - 1;
        law_time_windows_are_reported(fewer, histories, now, x);
        time_windows_of_a_rule(rules.last(), histories, now, x);
        held_before(batch_time_window(fewer, histories, now), rule_time_window(rules.last(), histories, now), x);
        if exists|i: int| 0 <= i < fewer.len() && time_windows_hold(#[trigger] fewer[i], histories, now, x) {
            let i = choose|i: int| 0 <= i < fewer.len() && time_windows_hold(#[trigger] fewer[i], histories, now, x);
            assert(rules[i] == fewer[i]);
        }
        if exists|i: int| 0 <= i < rules.len() && time_windows_hold(#[trigger] rules[i], histories, now, x) {
            let i = choose|i: int| 0 <= i < rules.len() && time_windows_hold(#[trigger] rules[i], histories, now, x);
            if i < last {
                assert(fewer[i] == rules[i]);
            }
        }
        if time_windows_hold(rules.last(), histories, now, x) {
            assert(rules[last] == rules.last());
        }
    }
}

proof fn topologies_of_a_rule(graph: GraphModel, rule: TopologyRule, nodes: Seq<NodeModel>, now: Timestamp, x: AnomalyModel)
    ensures
        rule_topology(graph, rule, nodes, now).contains(x) <==> exists|j: int|
            0 <= j < nodes.len() && topology_check(graph, rule, (#[trigger] nodes[j]).id, true, None, now).contains(x),
    decreases nodes.len(),
{
    if nodes.len() > 0 {
        let fewer = nodes.drop_last();
        let last = nodes.len() - 1;
        topologies_of_a_rule(graph, rule, fewer, now, x);
        held_before(rule_topology(graph, rule, fewer, now), topology_check(graph, rule, nodes.last().id, true, None, now), x);
        if exists|j: int| 0 <= j < fewer.len() && topology_check(graph, rule, (#[trigger] fewer[j]).id, true, None, now).contains(x) {
            let j = choose|j: int| 0 <= j < fewer.len() && topology_check(graph, rule, (#[trigger] fewer[j]).id, true, None, now).contains(x);
            assert(nodes[j] == fewer[j]);
        }
        if exists|j: int| 0 <= j < nodes.len() && topology_check(graph, rule, (#[trigger] nodes[j]).id, true, None, now).contains(x) {
            let j = choose|j: int| 0 <= j < nodes.len() && topology_check(graph, rule, (#[trigger] nodes[j]).id, true, None, now).contains(x);
            if j < last {
                assert(fewer[j] == nodes[j]);
            }
        }
        if topology_check(graph, rule, nodes.last().id, true, None, now).contains(x) {
            assert(nodes[last] == nodes.last());
        }
    }
}

/// The rule finds the anomaly at a living node of its type.
pub open spec fn topologies_hold(graph: GraphModel, rule: TopologyRule, now: Timestamp, x: AnomalyModel) -> bool {
    exists|t: Seq<char>| #[trigger]
        graph.nodes.contains_key(t) && graph.nodes[t].alive && graph.nodes[t].type_id == rule.node_type@ && topology_check(graph, rule, graph.nodes[t].id, true, None, now).contains(x)
}

proof fn topologies_of_the_graph(graph: GraphModel, rule: TopologyRule, now: Timestamp, x: AnomalyModel)
    requires
        graph.nodes.dom().finite(),
    ensures
        rule_topology(graph, rule, nodes_listed(graph, rule.node_type@), now).contains(x) <==> topologies_hold(graph, rule, now, x),
{
    let wanted = graph.nodes_of_type(rule.node_type@);
    let nodes = nodes_listed(graph, rule.node_type@);
    assert(wanted.subset_of(graph.nodes.dom()));
    vstd::set_lib::lemma_set_subset_finite(graph.nodes.dom(), wanted);
    law_finite_sets_have_an_order(graph.nodes, wanted);
    topologies_of_a_rule(graph, rule, nodes, now, x);
    if topologies_hold(graph, rule, now, x) {
        let t = choose|t: Seq<char>| #[trigger]
            graph.nodes.contains_key(t) && graph.nodes[t].alive && graph.nodes[t].type_id == rule.node_type@ && topology_check(graph, rule, graph.nodes[t].id, true, None, now).contains(x);
        assert(wanted.contains(t));
        assert(nodes.contains(graph.nodes[t]));
        let j = nodes.index_of(graph.nodes[t]);
        assert(topology_check(graph, rule, nodes[j].id, true, None, now).contains(x));
    }
    if exists|j: int| 0 <= j < nodes.len() && topology_check(graph, rule, (#[trigger] nodes[j]).id, true, None, now).contains(x) {
        let j = choose|j: int| 0 <= j < nodes.len() && topology_check(graph, rule, (#[trigger] nodes[j]).id, true, None, now).contains(x);
        let t = crate::table::in_order(wanted)[j];
        assert(crate::table::in_order(wanted).contains(t));
        assert(wanted.contains(t));
        assert(nodes[j] == graph.nodes[t]);
        assert(graph.nodes.contains_key(t));
    }
}

/// The rules report just what one of them finds at a living node of its type.
pub proof fn law_topologies_are_reported(graph: GraphModel, rules: Seq<TopologyRule>, now: Timestamp, x: AnomalyModel)
    requires
        graph.nodes.dom().finite(),
    ensures
        batch_topology(graph, rules, now).contains(x) <==> exists|i: int|
            0 <= i < rules.len() && topologies_hold(graph, #[trigger] rules[i], now, x),
    decreases rules.len(),
{
    if rules.len() > 0 {
        let fewer = rules.drop_last();
        let last = rules.len() - 1;
        law_topologies_are_reported(graph, fewer, now, x);
        topologies_of_the_graph(graph, rules.last(), now, x);
        held_before(batch_topology(graph, fewer, now), rule_topology(graph, rules.last(), nodes_listed(graph, rules.last().node_type@), now), x);
        if exists|i: int| 0 <= i < fewer.len() && topologies_hold(graph, #[trigger] fewer[i], now, x) {
            let i = choose|i: int| 0 <= i < fewer.len() && topologies_hold(graph, #[trigger] fewer[i], now, x);
            assert(rules[i] == fewer[i]);
        }
        if exists|i: int| 0 <= i < rules.len() && topologies_hold(graph, #[trigger] rules[i], now, x) {
            let i = choose|i: int| 0 <= i < rules.len() && topologies_hold(graph, #[trigger] rules[i], now, x);
            if i < last {
                assert(fewer[i] == rules[i]);
            }
        }
        if topologies_hold(graph, rules.last(), now, x) {
            assert(rules[last] == rules.last());
        }
    }
}

proof fn outliers_of_a_rule(graph: GraphModel, events: Seq<EventModel>, rule: CounterfactualRule, nodes: Seq<NodeModel>, now: Timestamp, x: AnomalyModel)
    ensures
        rule_outliers(rule, graph, events, nodes, now).contains(x) <==> exists|j: int|
            0 <= j < nodes.len() && outlier_of(rule, graph, events, (#[trigger] nodes[j]).id, now).contains(x),
    decreases nodes.len(),
{
    if nodes.len() > 0 {
        let fewer = nodes.drop_last();
        let last = nodes.len() - 1;
        outliers_of_a_rule(graph, events, rule, fewer, now, x);
        held_before(rule_outliers(rule, graph, events, fewer, now), outlier_of(rule, graph, events, nodes.last().id, now), x);
        if exists|j: int| 0 <= j < fewer.len() && outlier_of(rule, graph, events, (#[trigger] fewer[j]).id, now).contains(x) {
            let j = choose|j: int| 0 <= j < fewer.len() && outlier_of(rule, graph, events, (#[trigger] fewer[j]).id, now).contains(x);
            assert(nodes[j] == fewer[j]);
        }
        if exists|j: int| 0 <= j < nodes.len() && outlier_of(rule, graph, events, (#[trigger] nodes[j]).id, now).contains(x) {
            let j = choose|j: int| 0 <= j < nodes.len() && outlier_of(rule, graph, events, (#[trigger] nodes[j]).id, now).contains(x);
            if j < last {
                assert(fewer[j] == nodes[j]);
            }
        }
        if outlier_of(rule, graph, events, nodes.last().id, now).contains(x) {
            assert(nodes[last] == nodes.last());
        }
    }
}

/// The rule finds the anomaly at a living node of its type.
pub open spec fn outliers_hold(graph: GraphModel, events: Seq<EventModel>, rule: CounterfactualRule, now: Timestamp, x: AnomalyModel) -> bool {
    exists|t: Seq<char>| #[trigger]
        graph.nodes.contains_key(t) && graph.nodes[t].alive && graph.nodes[t].type_id == rule.node_type@ && outlier_of(rule, graph, events, graph.nodes[t].id, now).contains(x)
}

proof fn outliers_of_the_graph(graph: GraphModel, events: Seq<EventModel>, rule: CounterfactualRule, now: Timestamp, x: AnomalyModel)
    requires
        graph.nodes.dom().finite(),
    ensures
        rule_outliers(rule, graph, events, nodes_listed(graph, rule.node_type@), now).contains(x) <==> outliers_hold(graph, events, rule, now, x),
{
    let wanted = graph.nodes_of_type(rule.node_type@);
    let nodes = nodes_listed(graph, rule.node_type@);
    assert(wanted.subset_of(graph.nodes.dom()));
    vstd::set_lib::lemma_set_subset_finite(graph.nodes.dom(), wanted);
    law_finite_sets_have_an_order(graph.nodes, wanted);
    outliers_of_a_rule(graph, events, rule, nodes, now, x);
    if outliers_hold(graph, events, rule, now, x) {
        let t = choose|t: Seq<char>| #[trigger]
            graph.nodes.contains_key(t) && graph.nodes[t].alive && graph.nodes[t].type_id == rule.node_type@ && outlier_of(rule, graph, events, graph.nodes[t].id, now).contains(x);
        assert(wanted.contains(t));
        assert(nodes.contains(graph.nodes[t]));
        let j = nodes.index_of(graph.nodes[t]);
        assert(outlier_of(rule, graph, events, nodes[j].id, now).contains(x));
    }
    if exists|j: int| 0 <= j < nodes.len() && outlier_of(rule, graph, events, (#[trigger] nodes[j]).id, now).contains(x) {
        let j = choose|j: int| 0 <= j < nodes.len() && outlier_of(rule, graph, events, (#[trigger] nodes[j]).id, now).contains(x);
        let t = crate::table::in_order(wanted)[j];
        assert(crate::table::in_order(wanted).contains(t));
        assert(wanted.contains(t));
        assert(nodes[j] == graph.nodes[t]);
        assert(graph.nodes.contains_key(t));
    }
}

/// The rules report just what one of them finds at a living node of its type.
pub proof fn law_outliers_are_reported(graph: GraphModel, events: Seq<EventModel>, rules: Seq<CounterfactualRule>, now: Timestamp, x: AnomalyModel)
    requires
        graph.nodes.dom().finite(),
    ensures
        batch_outliers(rules, graph, events, now).contains(x) <==> exists|i: int|
            0 <= i < rules.len() && outliers_hold(graph, events, #[trigger] rules[i], now, x),
    decreases rules.len(),
{
    if rules.len() > 0 {
        let fewer = rules.drop_last();
        let last = rules.len() - 1;
        law_outliers_are_reported(graph, events, fewer, now, x);
        outliers_of_the_graph(graph, events, rules.last(), now, x);
        held_before(batch_outliers(fewer, graph, events, now), rule_outliers(rules.last(), graph, events, nodes_listed(graph, rules.last().node_type@), now), x);
        if exists|i: int| 0 <= i < fewer.len() && outliers_hold(graph, events, #[trigger] fewer[i], now, x) {
            let i = choose|i: int| 0 <= i < fewer.len() && outliers_hold(graph, events, #[trigger] fewer[i], now, x);
            assert(rules[i] == fewer[i]);
        }
        if exists|i: int| 0 <= i < rules.len() && outliers_hold(graph, events, #[trigger] rules[i], now, x) {
            let i = choose|i: int| 0 <= i < rules.len() && outliers_hold(graph, events, #[trigger] rules[i], now, x);
            if i < last {
                assert(fewer[i] == rules[i]);
            }
        }
        if outliers_hold(graph, events, rules.last(), now, x) {
            assert(rules[last] == rules.last());
        }
    }
}

proof fn patterns_at_a_node(
    graph: GraphModel,
    rules: Seq<PatternRule>,
    node: NodeModel,
    trigger: Option<Seq<char>>,
    now: Timestamp,
    x: AnomalyModel,
)
    ensures
        node_patterns(graph, rules, node, trigger, now).contains(x) <==> exists|i: int|
            0 <= i < rules.len() && pattern_of(graph, #[trigger] rules[i], node, trigger, now).contains(x),
    decreases rules.len(),
{
    if rules.len() > 0 {
        let fewer = rules.drop_last();
        let last = rules.len() - 1;
        patterns_at_a_node(graph, fewer, node, trigger, now, x);
        held_before(
            node_patterns(graph, fewer, node, trigger, now),
            pattern_of(graph, rules.last(), node, trigger, now),
            x,
        );
        if exists|i: int| 0 <= i < fewer.len() && pattern_of(graph, #[trigger] fewer[i], node, trigger, now).contains(x) {
            let i = choose|i: int|
                0 <= i < fewer.len() && pattern_of(graph, #[trigger] fewer[i], node, trigger, now).contains(x);
            assert(rules[i] == fewer[i]);
        }
        if exists|i: int| 0 <= i < rules.len() && pattern_of(graph, #[trigger] rules[i], node, trigger, now).contains(x) {
            let i = choose|i: int|
                0 <= i < rules.len() && pattern_of(graph, #[trigger] rules[i], node, trigger, now).contains(x);
            if i < last {
                assert(fewer[i] == rules[i]);
            }
        }
        if pattern_of(graph, rules.last(), node, trigger, now).contains(x) {
            assert(rules[last] == rules.last());
        }
    }
}

proof fn patterns_at_nodes(graph: GraphModel, rules: Seq<PatternRule>, nodes: Seq<NodeModel>, now: Timestamp, x: AnomalyModel)
    ensures
        listed_patterns(graph, rules, nodes, now).contains(x) <==> exists|j: int|
            0 <= j < nodes.len() && node_patterns(graph, rules, #[trigger] nodes[j], None, now).contains(x),
    decreases nodes.len(),
{
    if nodes.len() > 0 {
        let fewer = nodes.drop_last();
        let last = nodes.len() - 1;
        patterns_at_nodes(graph, rules, fewer, now, x);
        held_before(listed_patterns(graph, rules, fewer, now), node_patterns(graph, rules, nodes.last(), None, now), x);
        if exists|j: int| 0 <= j < fewer.len() && node_patterns(graph, rules, #[trigger] fewer[j], None, now).contains(x) {
            let j = choose|j: int|
                0 <= j < fewer.len() && node_patterns(graph, rules, #[trigger] fewer[j], None, now).contains(x);
            assert(nodes[j] == fewer[j]);
        }
        if exists|j: int| 0 <= j < nodes.len() && node_patterns(graph, rules, #[trigger] nodes[j], None, now).contains(x) {
            let j = choose|j: int|
                0 <= j < nodes.len() && node_patterns(graph, rules, #[trigger] nodes[j], None, now).contains(x);
            if j < last {
                assert(fewer[j] == nodes[j]);
            }
        }
        if node_patterns(graph, rules, nodes.last(), None, now).contains(x) {
            assert(nodes[last] == nodes.last());
        }
    }
}

proof fn patterns_at_types(graph: GraphModel, rules: Seq<PatternRule>, types: Seq<Seq<char>>, now: Timestamp, x: AnomalyModel)
    ensures
        types_patterns(graph, rules, types, now).contains(x) <==> exists|j: int|
            0 <= j < types.len() && listed_patterns(graph, rules, nodes_listed(graph, #[trigger] types[j]), now).contains(x),
    decreases types.len(),
{
    if types.len() > 0 {
        let fewer = types.drop_last();
        let last = types.len() - 1;
        patterns_at_types(graph, rules, fewer, now, x);
        held_before(
            types_patterns(graph, rules, fewer, now),
            listed_patterns(graph, rules, nodes_listed(graph, types.last()), now),
            x,
        );
        if exists|j: int|
            0 <= j < fewer.len() && listed_patterns(graph, rules, nodes_listed(graph, #[trigger] fewer[j]), now).contains(x) {
            let j = choose|j: int|
                0 <= j < fewer.len() && listed_patterns(graph, rules, nodes_listed(graph, #[trigger] fewer[j]), now).contains(x);
            assert(types[j] == fewer[j]);
        }
        if exists|j: int|
            0 <= j < types.len() && listed_patterns(graph, rules, nodes_listed(graph, #[trigger] types[j]), now).contains(x) {
            let j = choose|j: int|
                0 <= j < types.len() && listed_patterns(graph, rules, nodes_listed(graph, #[trigger] types[j]), now).contains(x);
            if j < last {
                assert(fewer[j] == types[j]);
            }
        }
        if listed_patterns(graph, rules, nodes_listed(graph, types.last()), now).contains(x) {
            assert(types[last] == types.last());
        }
    }
}

proof fn anchor_types_are_those_of_rules(rules: Seq<PatternRule>, i: int)
    requires
        0 <= i < rules.len(),
    ensures
        anchor_types(rules).contains(rules[i].anchor_type@),
    decreases rules.len(),
{
    let fewer = rules.drop_last();
    let before = anchor_types(fewer);
    if i < rules.len() - 1 {
        anchor_types_are_those_of_rules(fewer, i);
        let k = before.index_of(rules[i].anchor_type@);
        assert(anchor_types(rules)[k] == rules[i].anchor_type@);
    } else if !before.contains(rules[i].anchor_type@) {
        assert(anchor_types(rules)[before.len() as int] == rules[i].anchor_type@);
    }
}

/// A pattern that a rule finds at a living node of its anchor type is reported.
pub proof fn law_patterns_are_reported(
    graph: GraphModel,
    rules: Seq<PatternRule>,
    now: Timestamp,
    x: AnomalyModel,
    i: int,
    t: Seq<char>,
)
    requires
        graph.nodes.dom().finite(),
        0 <= i < rules.len(),
        graph.nodes.contains_key(t),
        graph.nodes[t].alive,
        graph.nodes[t].type_id == rules[i].anchor_type@,
        pattern_of(graph, rules[i], graph.nodes[t], None, now).contains(x),
    ensures
        batch_patterns(graph, rules, now).contains(x),
{
    let types = anchor_types(rules);
    anchor_types_are_those_of_rules(rules, i);
    let j = types.index_of(rules[i].anchor_type@);
    let wanted = graph.nodes_of_type(types[j]);
    assert(wanted.subset_of(graph.nodes.dom()));
    vstd::set_lib::lemma_set_subset_finite(graph.nodes.dom(), wanted);
    law_finite_sets_have_an_order(graph.nodes, wanted);
    let nodes = nodes_listed(graph, types[j]);
    assert(wanted.contains(t));
    let k = nodes.index_of(graph.nodes[t]);
    assert(nodes[k] == graph.nodes[t]);
    patterns_at_a_node(graph, rules, graph.nodes[t], None, now, x);
    patterns_at_nodes(graph, rules, nodes, now, x);
    assert(node_patterns(graph, rules, nodes[k], None, now).contains(x));
    patterns_at_types(graph, rules, types, now, x);
    assert(listed_patterns(graph, rules, nodes_listed(graph, types[j]), now).contains(x));
}

/// An analysis reports what each family of rules reports, and nothing else.
pub proof fn law_analyses_report_every_family(
    engine: AnomalyEngine,
    graph: GraphModel,
    histories: Seq<NodeHistory>,
    events: Seq<EventModel>,
    now: Timestamp,
    x: AnomalyModel,
)
    ensures
        batch_anomalies(engine, graph, histories, events, now).contains(x) <==> {
            ||| batch_topology(graph, engine.topology_rules@, now).contains(x)
            ||| batch_drift(engine.drift_rules@, histories, now).contains(x)
            ||| batch_change_rate(engine.change_rate_rules@, histories, now).contains(x)
            ||| batch_time_window(engine.time_window_rules@, histories, now).contains(x)
            ||| batch_outliers(engine.counterfactual_rules@, graph, events, now).contains(x)
            ||| batch_patterns(graph, engine.pattern_rules@, now).contains(x)
        },
{
    let a = batch_topology(graph, engine.topology_rules@, now);
    let b = batch_drift(engine.drift_rules@, histories, now);
    let c = batch_change_rate(engine.change_rate_rules@, histories, now);
    let d = batch_time_window(engine.time_window_rules@, histories, now);
    let e = batch_outliers(engine.counterfactual_rules@, graph, events, now);
    let f = batch_patterns(graph, engine.pattern_rules@, now);
    held_before(a, b, x);
    held_before(a + b, c, x);
    held_before(a + b + c, d, x);
    held_before(a + b + c + d, e, x);
    held_before(a + b + c + d + e, f, x);
}

/// The nodes that a cascade touched are those that its events are about, each once.
pub proof fn law_touched_nodes_are_those_of_the_events(events: Seq<EventModel>, t: Seq<char>)
    ensures
        affected(events).contains(t) <==> exists|i: int|
            0 <= i < events.len() && (#[trigger] events[i]).kind.target() == Some(t),
        affected(events).no_duplicates(),
    decreases events.len(),
{
    if events.len() > 0 {
        let fewer = events.drop_last();
        let last = events.len() - 1;
        law_touched_nodes_are_those_of_the_events(fewer, t);
        let before = affected(fewer);
        let all = affected(events);
        assert(events[last] == events.last());
        if before.contains(t) {
            assert(all[before.index_of(t)] == t);
        }
        if all.contains(t) && !before.contains(t) {
            let k = all.index_of(t);
            if k < before.len() {
                assert(before[k] == t);
            }
            assert(events[last].kind.target() == Some(t));
        }
        if exists|i: int| 0 <= i < fewer.len() && (#[trigger] fewer[i]).kind.target() == Some(t) {
            let i = choose|i: int| 0 <= i < fewer.len() && (#[trigger] fewer[i]).kind.target() == Some(t);
            assert(events[i] == fewer[i]);
        }
        if exists|i: int| 0 <= i < events.len() && (#[trigger] events[i]).kind.target() == Some(t) {
            let i = choose|i: int| 0 <= i < events.len() && (#[trigger] events[i]).kind.target() == Some(t);
            if i < last {
                assert(fewer[i] == events[i]);
            } else if !before.contains(t) {
                assert(all[before.len() as int] == t);
            }
        }
        if let Some(u) = events.last().kind.target() {
            if !before.contains(u) {
                assert forall|i: int, j: int| 0 <= i < j < all.len() implies all[i] != all[j] by {
                    if j == before.len() {
                        assert(before.contains(before[i]));
                    }
                }
            }
        }
    }
}

proof fn topology_at_a_node(
    graph: GraphModel,
    rules: Seq<TopologyRule>,
    node: NodeModel,
    trigger: Option<Seq<char>>,
    now: Timestamp,
    x: AnomalyModel,
    i: int,
)
    requires
        0 <= i < rules.len(),
        rules[i].node_type@ == node.type_id,
        topology_check(graph, rules[i], node.id, false, trigger, now).contains(x),
    ensures
        node_topology(graph, rules, node, trigger, now).contains(x),
    decreases rules.len(),
{
    let fewer = rules.drop_last();
    if i < rules.len() - 1 {
        assert(fewer[i] == rules[i]);
        topology_at_a_node(graph, fewer, node, trigger, now, x, i);
    }
    held_before(
        node_topology(graph, fewer, node, trigger, now),
        topology_check(graph, rules.last(), node.id, false, trigger, now),
        x,
    );
}

proof fn topology_at_nodes(
    graph: GraphModel,
    rules: Seq<TopologyRule>,
    ids: Seq<Seq<char>>,
    trigger: Option<Seq<char>>,
    now: Timestamp,
    x: AnomalyModel,
    j: int,
)
    requires
        0 <= j < ids.len(),
        graph.has_node(ids[j]),
        node_topology(graph, rules, graph.nodes[ids[j]], trigger, now).contains(x),
    ensures
        nodes_topology(graph, rules, ids, trigger, now).contains(x),
    decreases ids.len(),
{
    let fewer = ids.drop_last();
    if j < ids.len() - 1 {
        assert(fewer[j] == ids[j]);
        topology_at_nodes(graph, rules, fewer, trigger, now, x, j);
    }
    held_before(
        nodes_topology(graph, rules, fewer, trigger, now),
        node_topology(graph, rules, graph.nodes[ids.last()], trigger, now),
        x,
    );
}

proof fn patterns_at_touched_nodes(
    graph: GraphModel,
    rules: Seq<PatternRule>,
    ids: Seq<Seq<char>>,
    trigger: Option<Seq<char>>,
    now: Timestamp,
    x: AnomalyModel,
    j: int,
)
    requires
        0 <= j < ids.len(),
        graph.has_node(ids[j]),
        node_patterns(graph, rules, graph.nodes[ids[j]], trigger, now).contains(x),
    ensures
        nodes_patterns(graph, rules, ids, trigger, now).contains(x),
    decreases ids.len(),
{
    let fewer = ids.drop_last();
    if j < ids.len() - 1 {
        assert(fewer[j] == ids[j]);
        patterns_at_touched_nodes(graph, rules, fewer, trigger, now, x, j);
    }
    held_before(
        nodes_patterns(graph, rules, fewer, trigger, now),
        node_patterns(graph, rules, graph.nodes[ids.last()], trigger, now),
        x,
    );
}

/// After a cascade its size is judged, and the living nodes that its events are about are held
/// against the topology rules for their type and against the patterns; what is found there
/// names the first event as its trigger.
pub proof fn law_cascades_are_held_against_the_rules(
    engine: AnomalyEngine,
    events: Seq<EventModel>,
    depth: u32,
    graph: GraphModel,
    now: Timestamp,
    x: AnomalyModel,
    e: int,
    i: int,
    t: Seq<char>,
)
    requires
        0 <= e < events.len(),
        events[e].kind.target() == Some(t),
        graph.nodes.contains_key(t),
        graph.nodes[t].alive,
        graph.nodes[t].id == t,
    ensures
        ({
            let found = cascade_anomalies(engine, events, depth, graph, now);
            &&& amplification(engine.cascade_rule, events, depth, now).contains(x) ==> found.contains(x)
            &&& 0 <= i < engine.topology_rules@.len() && engine.topology_rules@[i].node_type@ == graph.nodes[t].type_id
                && topology_check(graph, engine.topology_rules@[i], t, false, Some(events[0].id), now).contains(x)
                ==> found.contains(x)
            &&& 0 <= i < engine.pattern_rules@.len() && pattern_of(
                graph,
                engine.pattern_rules@[i],
                graph.nodes[t],
                Some(events[0].id),
                now,
            ).contains(x) ==> found.contains(x)
        }),
{
    let trigger = first_event(events);
    let ids = affected(events);
    law_touched_nodes_are_those_of_the_events(events, t);
    assert(ids.contains(t));
    let j = ids.index_of(t);
    let a = amplification(engine.cascade_rule, events, depth, now);
    let b = nodes_topology(graph, engine.topology_rules@, ids, trigger, now);
    let c = nodes_patterns(graph, engine.pattern_rules@, ids, trigger, now);
    held_before(a, b, x);
    held_before(a + b, c, x);
    if 0 <= i < engine.topology_rules@.len() && engine.topology_rules@[i].node_type@ == graph.nodes[t].type_id
        && topology_check(graph, engine.topology_rules@[i], t, false, trigger, now).contains(x) {
        topology_at_a_node(graph, engine.topology_rules@, graph.nodes[t], trigger, now, x, i);
        topology_at_nodes(graph, engine.topology_rules@, ids, trigger, now, x, j);
    }
    if 0 <= i < engine.pattern_rules@.len() && pattern_of(
        graph,
        engine.pattern_rules@[i],
        graph.nodes[t],
        trigger,
        now,
    ).contains(x) {
        patterns_at_a_node(graph, engine.pattern_rules@, graph.nodes[t], trigger, now, x);
        patterns_at_touched_nodes(graph, engine.pattern_rules@, ids, trigger, now, x, j);
    }
}

} // verus!
