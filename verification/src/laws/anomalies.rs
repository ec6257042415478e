//! Laws of anomalies: what each rule finds, and what makes no difference to it.

use crate::anomaly::{
    about, amplification, change_rate_of, change_times, count_in_span, count_out_of_window, drift_of, edges_listed,
    first_hour_out, graph_impact, in_span, leads_to_target, lookback_start, nanos_before, out_of_window, outlier_of,
    pattern_of, recent_values, removal_set, targets_of, time_window_of, topology_check, versions_of,
};
use crate::anomaly_rules::{
    all_numeric, falls, in_window, numeric, predicate_holds, rises, trend_of, AnomalyKindModel, AnomalyModel,
    CascadeRule, ChangeRateRule, CounterfactualRule, DriftDirection, DriftRule, NodeHistory, PatternRule,
    PropertyHistory, PropertyPredicate, PropertyVersion, TimeWindowRule, TopologyRule,
};
use crate::counterfactual::{edges_differing, edges_only_in, nodes_differing, nodes_only_in, property_differs};
use crate::event::EventModel;
use crate::graph::NodeModel;
use crate::laws::counterfactuals::{apart, edge_is_apart, node_is_apart};
use crate::laws::orders::law_finite_sets_have_an_order;
use crate::number::Number;
use crate::projection::GraphModel;
use crate::table::in_order;
use crate::time::Timestamp;
use crate::value::{values_equal, ValueModel};
use vstd::prelude::*;

verus! {

/// A time in nanoseconds since the epoch.
pub open spec fn clock(time: Timestamp) -> int {
    time.seconds * 1_000_000_000 + time.nanos
}

/// The time lies so many seconds before the other, or less, and not behind it.
pub open spec fn within(time: Timestamp, now: Timestamp, seconds: int) -> bool {
    clock(now) - seconds * 1_000_000_000 <= clock(time) <= clock(now)
}

/// The hour of the day lies in the window that goes from one hour to the other around the clock.
pub open spec fn around_the_clock(time: Timestamp, start: int, end: int) -> bool {
    ((time.seconds as int % 86_400) / 3_600 - start) % 24 <= (end - start) % 24
}

/// How many versions of the properties satisfy the condition.
pub open spec fn versions_that(properties: Seq<PropertyHistory>, holds: spec_fn(PropertyVersion) -> bool) -> nat
    decreases properties.len(),
{
    if properties.len() == 0 {
        0
    } else {
        versions_that(properties.drop_last(), holds) + properties.last().versions@.filter(holds).len()
    }
}

/// Hours lie in a window as on a clock: from its start on, not farther than its end.
pub proof fn law_windows_go_around_the_clock(hour: int, start: int, end: int)
    requires
        0 <= hour < 24,
        0 <= start < 24,
        0 <= end < 24,
    ensures
        in_window(hour, start, end) <==> (hour - start) % 24 <= (end - start) % 24,
{
}

proof fn counts_add(a: Seq<Timestamp>, b: Seq<Timestamp>, low: Option<int>, high: int)
    ensures
        count_in_span(a + b, low, high) == count_in_span(a, low, high) + count_in_span(b, low, high),
    decreases b.len(),
{
    if b.len() == 0 {
        assert(a + b =~= a);
    } else {
        assert((a + b).drop_last() =~= a + b.drop_last());
        counts_add(a, b.drop_last(), low, high);
    }
}

proof fn versions_are_counted(
    versions: Seq<PropertyVersion>,
    low: Option<int>,
    high: int,
    holds: spec_fn(PropertyVersion) -> bool,
)
    requires
        forall|v: PropertyVersion| #[trigger] holds(v) <==> in_span(v.effective_from, low, high),
    ensures
        count_in_span(versions.map_values(|v: PropertyVersion| v.effective_from), low, high) == versions.filter(
            holds,
        ).len(),
    decreases versions.len(),
{
    reveal(Seq::filter);
    let times = versions.map_values(|v: PropertyVersion| v.effective_from);
    if versions.len() > 0 {
        versions_are_counted(versions.drop_last(), low, high, holds);
        assert(times.drop_last() =~= versions.drop_last().map_values(|v: PropertyVersion| v.effective_from));
        assert(times.last() == versions.last().effective_from);
        assert(holds(versions.last()) <==> in_span(versions.last().effective_from, low, high));
    }
}

proof fn changes_are_counted(
    properties: Seq<PropertyHistory>,
    low: Option<int>,
    high: int,
    holds: spec_fn(PropertyVersion) -> bool,
)
    requires
        forall|v: PropertyVersion| #[trigger] holds(v) <==> in_span(v.effective_from, low, high),
    ensures
        count_in_span(change_times(properties), low, high) == versions_that(properties, holds),
    decreases properties.len(),
{
    if properties.len() > 0 {
        changes_are_counted(properties.drop_last(), low, high, holds);
        versions_are_counted(properties.last().versions@, low, high, holds);
        counts_add(
            change_times(properties.drop_last()),
            properties.last().versions@.map_values(|v: PropertyVersion| v.effective_from),
            low,
            high,
        );
    }
}

/// A change rate rule counts the changes of the last seconds, and no others: it finds something
/// exactly where a node of its type has more of them than it allows, and then says how many.
pub proof fn law_change_rates_count_the_last_seconds(rule: ChangeRateRule, history: NodeHistory, now: Timestamp)
    ensures
        ({
            let recent = versions_that(
                history.properties@,
                |v: PropertyVersion| within(v.effective_from, now, rule.window_secs as int),
            );
            let found = change_rate_of(rule, history, now);
            if history.type_id@ == rule.node_type@ && recent > rule.max_changes {
                &&& found.len() == 1
                &&& found[0].kind == AnomalyKindModel::ChangeRateAnomaly {
                    node_id: history.node_id@,
                    changes_in_window: recent as usize,
                    normal_max: rule.max_changes,
                    window_secs: rule.window_secs,
                }
                &&& found[0].severity == rule.severity
                &&& found[0].affected_nodes == seq![history.node_id@]
                &&& found[0].trigger_event is None
                &&& found[0].detected_at == now
            } else {
                found.len() == 0
            }
        }),
{
    let holds = |v: PropertyVersion| within(v.effective_from, now, rule.window_secs as int);
    changes_are_counted(
        history.properties@,
        Some(nanos_before(now, rule.window_secs)),
        now.total_nanos(),
        holds,
    );
}

proof fn same_versions_same_count(
    one: Seq<PropertyHistory>,
    other: Seq<PropertyHistory>,
    holds: spec_fn(PropertyVersion) -> bool,
)
    requires
        one.len() == other.len(),
        forall|i: int|
            0 <= i < one.len() ==> (#[trigger] one[i]).versions@.filter(holds) == other[i].versions@.filter(holds),
    ensures
        versions_that(one, holds) == versions_that(other, holds),
    decreases one.len(),
{
    if one.len() > 0 {
        assert forall|i: int| 0 <= i < one.drop_last().len() implies (#[trigger] one.drop_last()[i]).versions@.filter(holds)
            == other.drop_last()[i].versions@.filter(holds) by {
            assert(one[i].versions@.filter(holds) == other[i].versions@.filter(holds));
        }
        same_versions_same_count(one.drop_last(), other.drop_last(), holds);
        assert(one[one.len() - 1].versions@.filter(holds) == other[one.len() - 1].versions@.filter(holds));
    }
}

/// Changes outside the last seconds do not matter: a change rate rule finds the same in two
/// histories of a node that have the same changes in these.
pub proof fn law_old_changes_do_not_matter(
    rule: ChangeRateRule,
    one: NodeHistory,
    other: NodeHistory,
    now: Timestamp,
)
    requires
        one.node_id@ == other.node_id@,
        one.type_id@ == other.type_id@,
        one.properties@.len() == other.properties@.len(),
        forall|i: int|
            0 <= i < one.properties@.len() ==> (#[trigger] one.properties@[i]).versions@.filter(
                |v: PropertyVersion| within(v.effective_from, now, rule.window_secs as int),
            ) == other.properties@[i].versions@.filter(
                |v: PropertyVersion| within(v.effective_from, now, rule.window_secs as int),
            ),
    ensures
        change_rate_of(rule, one, now) == change_rate_of(rule, other, now),
{
    let holds = |v: PropertyVersion| within(v.effective_from, now, rule.window_secs as int);
    let low = Some(nanos_before(now, rule.window_secs));
    changes_are_counted(one.properties@, low, now.total_nanos(), holds);
    changes_are_counted(other.properties@, low, now.total_nanos(), holds);
    assert forall|i: int| 0 <= i < one.properties@.len() implies (#[trigger] one.properties@[i]).versions@.filter(holds)
        == other.properties@[i].versions@.filter(holds) by {
    }
    same_versions_same_count(one.properties@, other.properties@, holds);
}

proof fn nothing_is_counted(properties: Seq<PropertyHistory>, holds: spec_fn(PropertyVersion) -> bool)
    requires
        forall|i: int, j: int|
            0 <= i < properties.len() && 0 <= j < properties[i].versions@.len() ==> !holds(
                #[trigger] properties[i].versions@[j],
            ),
    ensures
        versions_that(properties, holds) == 0,
    decreases properties.len(),
{
    if properties.len() > 0 {
        let last = properties.len() - 1;
        assert forall|i: int, j: int|
            0 <= i < properties.drop_last().len() && 0 <= j < properties.drop_last()[i].versions@.len() implies !holds(
            #[trigger] properties.drop_last()[i].versions@[j],
        ) by {
            assert(!holds(properties[i].versions@[j]));
        }
        nothing_is_counted(properties.drop_last(), holds);
        let kept = properties.last().versions@.filter(holds);
        if kept.len() > 0 {
            properties.last().versions@.lemma_filter_contains_rev(holds, kept[0]);
            let j = properties[last].versions@.index_of(kept[0]);
            assert(!holds(properties[last].versions@[j]));
            properties.last().versions@.lemma_filter_pred(holds, 0);
        }
    }
}

/// In a history all of whose changes are older than the last seconds, or still to come, a change
/// rate rule finds nothing.
pub proof fn law_without_recent_changes_nothing_is_found(rule: ChangeRateRule, history: NodeHistory, now: Timestamp)
    requires
        forall|i: int, j: int|
            0 <= i < history.properties@.len() && 0 <= j < history.properties@[i].versions@.len() ==> {
                let at = (#[trigger] history.properties@[i].versions@[j]).effective_from;
                clock(at) < clock(now) - rule.window_secs * 1_000_000_000 || clock(at) > clock(now)
            },
    ensures
        change_rate_of(rule, history, now).len() == 0,
{
    let holds = |v: PropertyVersion| within(v.effective_from, now, rule.window_secs as int);
    law_change_rates_count_the_last_seconds(rule, history, now);
    nothing_is_counted(history.properties@, holds);
}

proof fn violations_add(a: Seq<Timestamp>, b: Seq<Timestamp>, low: Option<int>, high: int, rule: TimeWindowRule)
    ensures
        count_out_of_window(a + b, low, high, rule) == count_out_of_window(a, low, high, rule) + count_out_of_window(
            b,
            low,
            high,
            rule,
        ),
    decreases b.len(),
{
    if b.len() == 0 {
        assert(a + b =~= a);
    } else {
        assert((a + b).drop_last() =~= a + b.drop_last());
        violations_add(a, b.drop_last(), low, high, rule);
    }
}

proof fn violating_versions_are_counted(
    versions: Seq<PropertyVersion>,
    low: Option<int>,
    high: int,
    rule: TimeWindowRule,
    holds: spec_fn(PropertyVersion) -> bool,
)
    requires
        forall|v: PropertyVersion| #[trigger] holds(v) <==> out_of_window(v.effective_from, low, high, rule),
    ensures
        count_out_of_window(versions.map_values(|v: PropertyVersion| v.effective_from), low, high, rule)
            == versions.filter(holds).len(),
    decreases versions.len(),
{
    reveal(Seq::filter);
    let times = versions.map_values(|v: PropertyVersion| v.effective_from);
    if versions.len() > 0 {
        violating_versions_are_counted(versions.drop_last(), low, high, rule, holds);
        assert(times.drop_last() =~= versions.drop_last().map_values(|v: PropertyVersion| v.effective_from));
        assert(times.last() == versions.last().effective_from);
        assert(holds(versions.last()) <==> out_of_window(versions.last().effective_from, low, high, rule));
    }
}

proof fn violations_are_counted(
    properties: Seq<PropertyHistory>,
    low: Option<int>,
    high: int,
    rule: TimeWindowRule,
    holds: spec_fn(PropertyVersion) -> bool,
)
    requires
        forall|v: PropertyVersion| #[trigger] holds(v) <==> out_of_window(v.effective_from, low, high, rule),
    ensures
        count_out_of_window(change_times(properties), low, high, rule) == versions_that(properties, holds),
    decreases properties.len(),
{
    if properties.len() > 0 {
        violations_are_counted(properties.drop_last(), low, high, rule, holds);
        violating_versions_are_counted(properties.last().versions@, low, high, rule, holds);
        violations_add(
            change_times(properties.drop_last()),
            properties.last().versions@.map_values(|v: PropertyVersion| v.effective_from),
            low,
            high,
            rule,
        );
    }
}

proof fn the_first_hour_is_outside(times: Seq<Timestamp>, low: Option<int>, high: int, rule: TimeWindowRule)
    requires
        count_out_of_window(times, low, high, rule) > 0,
    ensures
        exists|i: int|
            0 <= i < times.len() && #[trigger] out_of_window(times[i], low, high, rule) && first_hour_out(
                times,
                low,
                high,
                rule,
            ) == times[i].hour_of_day() && forall|j: int| 0 <= j < i ==> !out_of_window(#[trigger] times[j], low, high, rule),
    decreases times.len(),
{
    let fewer = times.drop_last();
    if count_out_of_window(fewer, low, high, rule) > 0 {
        the_first_hour_is_outside(fewer, low, high, rule);
        let i = choose|i: int|
            0 <= i < fewer.len() && #[trigger] out_of_window(fewer[i], low, high, rule) && first_hour_out(
                fewer,
                low,
                high,
                rule,
            ) == fewer[i].hour_of_day() && forall|j: int| 0 <= j < i ==> !out_of_window(#[trigger] fewer[j], low, high, rule);
        assert(fewer[i] == times[i]);
        assert(out_of_window(times[i], low, high, rule));
        assert forall|j: int| 0 <= j < i implies !out_of_window(#[trigger] times[j], low, high, rule) by {
            assert(fewer[j] == times[j]);
        }
    } else {
        let i = times.len() - 1;
        assert(out_of_window(times[i], low, high, rule));
        assert forall|j: int| 0 <= j < i implies !out_of_window(#[trigger] times[j], low, high, rule) by {
            none_of_them(fewer, low, high, rule, j);
            assert(fewer[j] == times[j]);
        }
    }
}

proof fn none_of_them(times: Seq<Timestamp>, low: Option<int>, high: int, rule: TimeWindowRule, j: int)
    requires
        count_out_of_window(times, low, high, rule) == 0,
        0 <= j < times.len(),
    ensures
        !out_of_window(times[j], low, high, rule),
    decreases times.len(),
{
    if j < times.len() - 1 {
        none_of_them(times.drop_last(), low, high, rule, j);
    }
}

/// A time window rule finds something exactly where more changes of a node of its type than it
/// tolerates were made outside its hours, in the time that it looks back to; without such a
/// time all history counts, but for what is still to come. It says how many there were, of how
/// many changes, and an hour outside the window.
pub proof fn law_time_windows_count_what_is_outside(rule: TimeWindowRule, history: NodeHistory, now: Timestamp)
    requires
        rule.start_hour < 24,
        rule.end_hour < 24,
    ensures
        ({
            let looked_at = |v: PropertyVersion|
                clock(v.effective_from) <= clock(now) && (rule.lookback_secs > 0 ==> clock(now) - rule.lookback_secs
                    * 1_000_000_000 <= clock(v.effective_from));
            let outside = |v: PropertyVersion|
                looked_at(v) && !around_the_clock(v.effective_from, rule.start_hour as int, rule.end_hour as int);
            let violations = versions_that(history.properties@, outside);
            let found = time_window_of(rule, history, now);
            if history.type_id@ == rule.node_type@ && violations > rule.tolerance {
                &&& found.len() == 1
                &&& found[0].severity == rule.severity
                &&& found[0].affected_nodes == seq![history.node_id@]
                &&& found[0].trigger_event is None
                &&& found[0].detected_at == now
                &&& found[0].kind matches AnomalyKindModel::TimeWindowViolation {
                    node_id,
                    change_hour,
                    expected_start_hour,
                    expected_end_hour,
                    violations: said,
                    total_changes,
                } && {
                    &&& node_id == history.node_id@
                    &&& expected_start_hour == rule.start_hour
                    &&& expected_end_hour == rule.end_hour
                    &&& said == violations as usize
                    &&& total_changes == versions_that(history.properties@, looked_at) as usize
                    &&& change_hour < 24
                    &&& !((change_hour - rule.start_hour) % 24 <= (rule.end_hour - rule.start_hour) % 24)
                }
            } else {
                found.len() == 0
            }
        }),
{
    let looked_at = |v: PropertyVersion|
        clock(v.effective_from) <= clock(now) && (rule.lookback_secs > 0 ==> clock(now) - rule.lookback_secs
            * 1_000_000_000 <= clock(v.effective_from));
    let outside = |v: PropertyVersion|
        looked_at(v) && !around_the_clock(v.effective_from, rule.start_hour as int, rule.end_hour as int);
    let low = lookback_start(rule, now);
    let high = now.total_nanos();
    let times = change_times(history.properties@);
    assert forall|v: PropertyVersion| #[trigger] outside(v) <==> out_of_window(v.effective_from, low, high, rule) by {
        law_windows_go_around_the_clock(
            v.effective_from.hour_of_day(),
            rule.start_hour as int,
            rule.end_hour as int,
        );
    }
    assert forall|v: PropertyVersion| #[trigger] looked_at(v) <==> in_span(v.effective_from, low, high) by {
    }
    violations_are_counted(history.properties@, low, high, rule, outside);
    changes_are_counted(history.properties@, low, high, looked_at);
    if count_out_of_window(times, low, high, rule) > 0 {
        the_first_hour_is_outside(times, low, high, rule);
        let i = choose|i: int|
            0 <= i < times.len() && #[trigger] out_of_window(times[i], low, high, rule) && first_hour_out(
                times,
                low,
                high,
                rule,
            ) == times[i].hour_of_day();
        law_windows_go_around_the_clock(times[i].hour_of_day(), rule.start_hour as int, rule.end_hour as int);
    }
}

/// The living edges of the type at the node, on the side of the source or of the target.
pub open spec fn edges_at(graph: GraphModel, node: Seq<char>, edge_type: Seq<char>, source: bool) -> Set<Seq<char>> {
    Set::new(
        |t: Seq<char>|
            graph.edges.contains_key(t) && graph.edges[t].alive && graph.edges[t].type_id == edge_type && (if source {
                graph.edges[t].source == node
            } else {
                graph.edges[t].target == node
            }),
    )
}

/// A topology rule finds something at a node exactly where the living edges of its type there,
/// both ways, are fewer than it asks for or more than it allows. Without any where some are due,
/// the node is an orphan, where these are told apart.
pub proof fn law_topology_counts_the_living_edges(
    graph: GraphModel,
    rule: TopologyRule,
    node: Seq<char>,
    orphans: bool,
    trigger: Option<Seq<char>>,
    now: Timestamp,
)
    requires
        edges_at(graph, node, rule.edge_type@, true).len() + edges_at(graph, node, rule.edge_type@, false).len()
            <= u32::MAX,
    ensures
        ({
            let n = edges_at(graph, node, rule.edge_type@, true).len() + edges_at(
                graph,
                node,
                rule.edge_type@,
                false,
            ).len();
            let found = topology_check(graph, rule, node, orphans, trigger, now);
            if n < rule.min_degree || n > rule.max_degree {
                &&& found.len() == 1
                &&& found[0].severity == rule.severity
                &&& found[0].affected_nodes == seq![node]
                &&& found[0].trigger_event == trigger
                &&& found[0].detected_at == now
                &&& orphans && n == 0 && rule.min_degree > 0 ==> found[0].kind == (AnomalyKindModel::StructuralOrphan {
                    node_id: node,
                    missing_edge_type: rule.edge_type@,
                })
                &&& !(orphans && n == 0 && rule.min_degree > 0) ==> found[0].kind
                    == (AnomalyKindModel::TopologyDegree {
                    node_id: node,
                    edge_type: rule.edge_type@,
                    expected_min: rule.min_degree,
                    expected_max: rule.max_degree,
                    actual: n as u32,
                })
            } else {
                found.len() == 0
            }
        }),
{
    assert(edges_at(graph, node, rule.edge_type@, true) =~= graph.edges_from(node).intersect(
        graph.edges_of_type(rule.edge_type@),
    ));
    assert(edges_at(graph, node, rule.edge_type@, false) =~= graph.edges_to(node).intersect(
        graph.edges_of_type(rule.edge_type@),
    ));
}

/// A drift rule finds nothing at nodes of another type, where too few values are known, or where
/// one of the values it looks at is neither an integer nor a float. It looks at the last changes
/// of the property, and at the value before them.
pub proof fn law_drift_needs_numbers(rule: DriftRule, history: NodeHistory, now: Timestamp, p: int, i: int)
    requires
        0 <= p < history.properties@.len(),
        history.properties@[p].property@ == rule.property@,
        forall|j: int| 0 <= j < p ==> (#[trigger] history.properties@[j]).property@ != rule.property@,
        ({
            let all = history.properties@[p].versions@;
            ||| history.type_id@ != rule.node_type@
            ||| all.len() <= rule.min_consecutive
            ||| all.len() - rule.min_consecutive - 1 <= i < all.len() && !(all[i].value@ is Int) && !(all[i].value@ is Float)
        }),
    ensures
        drift_of(rule, history, now).len() == 0,
{
    let all = history.properties@[p].versions@;
    first_of_the_name(history.properties@, rule.property@, p);
    if all.len() > rule.min_consecutive && history.type_id@ == rule.node_type@ {
        let from = all.len() - rule.min_consecutive - 1;
        let recent = recent_values(rule, history);
        assert(recent[i - from] == all[i]);
        other_values_have_no_trend(recent, i - from);
    }
}

/// Where the last values of a property are floats, a drift rule finds something exactly where each
/// is above the one before, or each below it, and says which.
pub proof fn law_drift_is_a_strict_trend(
    rule: DriftRule,
    history: NodeHistory,
    now: Timestamp,
    p: int,
    floats: Seq<Number>,
)
    requires
        0 <= p < history.properties@.len(),
        history.properties@[p].property@ == rule.property@,
        forall|i: int| 0 <= i < p ==> (#[trigger] history.properties@[i]).property@ != rule.property@,
        rule.min_consecutive > 0,
        history.type_id@ == rule.node_type@,
        history.properties@[p].versions@.len() > rule.min_consecutive,
        floats.len() == rule.min_consecutive + 1,
        forall|i: int|
            0 <= i < floats.len() ==> history.properties@[p].versions@[history.properties@[p].versions@.len()
                - floats.len() + i].value@ == ValueModel::Float(#[trigger] floats[i]),
    ensures
        goes_up(floats) || goes_down(floats) ==> drift_of(rule, history, now).len() == 1 && is_drift(
            drift_of(rule, history, now)[0],
            rule,
            history,
            now,
            goes_up(floats),
        ),
        !goes_up(floats) && !goes_down(floats) ==> drift_of(rule, history, now).len() == 0,
{
    let all = history.properties@[p].versions@;
    first_of_the_name(history.properties@, rule.property@, p);
    let recent = recent_values(rule, history);
    assert(recent =~= all.skip(all.len() - floats.len()));
    assert forall|i: int| 0 <= i < recent.len() implies (#[trigger] recent[i]).value@ == ValueModel::Float(floats[i]) by {
        assert(recent[i] == all[all.len() - floats.len() + i]);
    }
    floats_have_the_trend_they_show(recent, floats);
    drift_follows_the_trend(rule, history, now, goes_up(floats), goes_down(floats));
}

proof fn drift_follows_the_trend(rule: DriftRule, history: NodeHistory, now: Timestamp, up: bool, down: bool)
    requires
        history.type_id@ == rule.node_type@,
        versions_of(history.properties@, rule.property@).len() > rule.min_consecutive,
        trend_of(recent_values(rule, history)) == if up {
            Some(DriftDirection::Increasing)
        } else if down {
            Some(DriftDirection::Decreasing)
        } else {
            None
        },
    ensures
        up || down ==> drift_of(rule, history, now).len() == 1 && is_drift(
            drift_of(rule, history, now)[0],
            rule,
            history,
            now,
            up,
        ),
        !up && !down ==> drift_of(rule, history, now).len() == 0,
{
    assert(recent_values(rule, history).len() == rule.min_consecutive + 1);
}

/// The anomaly says that the property of the node drifts, which way, and over how many values.
pub open spec fn is_drift(found: AnomalyModel, rule: DriftRule, history: NodeHistory, now: Timestamp, up: bool) -> bool {
    &&& found.severity == rule.severity
    &&& found.affected_nodes == seq![history.node_id@]
    &&& found.detected_at == now
    &&& found.trigger_event is None
    &&& found.kind is TemporalDrift
    &&& found.kind->TemporalDrift_node_id == history.node_id@
    &&& found.kind->TemporalDrift_property == rule.property@
    &&& found.kind->data_points == (rule.min_consecutive + 1) as usize
    &&& found.kind->direction == if up {
        DriftDirection::Increasing
    } else {
        DriftDirection::Decreasing
    }
}

proof fn first_of_the_name(properties: Seq<PropertyHistory>, property: Seq<char>, p: int)
    requires
        0 <= p < properties.len(),
        properties[p].property@ == property,
        forall|i: int| 0 <= i < p ==> (#[trigger] properties[i]).property@ != property,
    ensures
        versions_of(properties, property) == properties[p].versions@,
    decreases p,
{
    if p > 0 {
        assert(properties[0].property@ != property);
        assert forall|i: int| 0 <= i < p - 1 implies (#[trigger] properties.skip(1)[i]).property@ != property by {
            assert(properties[i + 1].property@ != property);
        }
        first_of_the_name(properties.skip(1), property, p - 1);
    }
}

/// Every number is below the next.
pub open spec fn goes_up(floats: Seq<Number>) -> bool {
    forall|i: int, j: int| 0 <= i < floats.len() - 1 && j == i + 1 ==> (#[trigger] floats[i]).below(#[trigger] floats[j])
}

/// Every number is above the next.
pub open spec fn goes_down(floats: Seq<Number>) -> bool {
    forall|i: int, j: int| 0 <= i < floats.len() - 1 && j == i + 1 ==> (#[trigger] floats[j]).below(#[trigger] floats[i])
}

proof fn other_values_have_no_trend(recent: Seq<PropertyVersion>, k: int)
    requires
        0 <= k < recent.len(),
        !(recent[k].value@ is Int),
        !(recent[k].value@ is Float),
    ensures
        trend_of(recent) is None,
{
    assert(numeric(recent[k].value@) is None);
    assert(!all_numeric(recent));
}

proof fn floats_have_the_trend_they_show(recent: Seq<PropertyVersion>, floats: Seq<Number>)
    requires
        recent.len() == floats.len(),
        floats.len() >= 2,
        forall|i: int| 0 <= i < recent.len() ==> (#[trigger] recent[i]).value@ == ValueModel::Float(floats[i]),
    ensures
        trend_of(recent) == if goes_up(floats) {
            Some(DriftDirection::Increasing)
        } else if goes_down(floats) {
            Some(DriftDirection::Decreasing)
        } else {
            None
        },
{
    assert forall|i: int| 0 <= i < recent.len() implies numeric((#[trigger] recent[i]).value@) == Some(floats[i]) by {
    }
    assert(all_numeric(recent));
    if rises(recent) {
        assert forall|i: int, j: int| 0 <= i < floats.len() - 1 && j == i + 1 implies (#[trigger] floats[i]).below(
            #[trigger] floats[j],
        ) by {
            assert(numeric(recent[i].value@)->0.below(numeric(recent[i + 1].value@)->0));
        }
    }
    if goes_up(floats) {
        assert forall|i: int, j: int| 0 <= i < recent.len() - 1 && j == i + 1 implies numeric(
            (#[trigger] recent[i]).value@,
        )->0.below(numeric((#[trigger] recent[j]).value@)->0) by {
            assert(floats[i].below(floats[i + 1]));
        }
        assert(rises(recent));
    }
    if falls(recent) {
        assert forall|i: int, j: int| 0 <= i < floats.len() - 1 && j == i + 1 implies (#[trigger] floats[j]).below(
            #[trigger] floats[i],
        ) by {
            assert(numeric(recent[i + 1].value@)->0.below(numeric(recent[i].value@)->0));
        }
    }
    if goes_down(floats) {
        assert forall|i: int, j: int| 0 <= i < recent.len() - 1 && j == i + 1 implies numeric(
            (#[trigger] recent[j]).value@,
        )->0.below(numeric((#[trigger] recent[i]).value@)->0) by {
            assert(floats[i + 1].below(floats[i]));
        }
        assert(falls(recent));
    }
}

/// A cascade beyond a limit is reported with its size, its depth and the limits.
pub proof fn law_amplification_says_how_large(
    rule: CascadeRule,
    events: Seq<EventModel>,
    depth: u32,
    now: Timestamp,
)
    requires
        events.len() <= usize::MAX,
    ensures
        ({
            let found = amplification(rule, events, depth, now);
            if events.len() > rule.max_event_count || depth > rule.max_depth {
                &&& found.len() == 1
                &&& found[0].kind == (AnomalyKindModel::CascadeAmplification {
                    cascade_event_count: events.len() as usize,
                    cascade_depth: depth,
                    normal_max_count: rule.max_event_count,
                    normal_max_depth: rule.max_depth,
                })
                &&& found[0].severity == rule.severity
                &&& found[0].detected_at == now
                &&& events.len() > 0 ==> found[0].trigger_event == Some(events[0].id)
            } else {
                found.len() == 0
            }
        }),
{
}

/// The edge is alive, of the type of the pattern, leaves the node, and leads to a living node of
/// the target type that meets the condition, where there is one.
pub open spec fn fans_out(graph: GraphModel, rule: PatternRule, node: Seq<char>, edge: Seq<char>) -> bool {
    let target = graph.edges[edge].target;
    &&& graph.edges.contains_key(edge)
    &&& graph.edges[edge].alive
    &&& graph.edges[edge].type_id == rule.edge_type@
    &&& graph.edges[edge].source == node
    &&& graph.nodes.contains_key(target)
    &&& graph.nodes[target].alive
    &&& graph.nodes[target].type_id == rule.target_type@
    &&& rule.target_predicate is Some ==> predicate_holds(rule.target_predicate->0, graph.nodes[target].properties)
}

proof fn targets_are_counted(graph: GraphModel, rule: PatternRule, ids: Seq<Seq<char>>)
    requires
        ids.no_duplicates(),
    ensures
        ({
            let edges = ids.map_values(|t: Seq<char>| graph.edges[t]);
            let hit = |t: Seq<char>| leads_to_target(graph, rule, graph.edges[t]);
            &&& targets_of(graph, rule, edges) == ids.filter(hit).map_values(|t: Seq<char>| graph.edges[t].target)
        }),
    decreases ids.len(),
{
    reveal(Seq::filter);
    let edges = ids.map_values(|t: Seq<char>| graph.edges[t]);
    let hit = |t: Seq<char>| leads_to_target(graph, rule, graph.edges[t]);
    let goal = ids.filter(hit).map_values(|t: Seq<char>| graph.edges[t].target);
    if ids.len() > 0 {
        let fewer = ids.drop_last();
        assert(fewer.no_duplicates());
        targets_are_counted(graph, rule, fewer);
        assert(edges.drop_last() =~= fewer.map_values(|t: Seq<char>| graph.edges[t]));
        assert(edges.last() == graph.edges[ids.last()]);
        assert(targets_of(graph, rule, edges) =~= goal);
    } else {
        assert(targets_of(graph, rule, edges) =~= goal);
    }
}

/// A pattern rule counts the edges that fan out: it finds something at a living node of its type
/// that meets its condition, exactly where there are at least so many, and then names the target
/// of each of them.
pub proof fn law_patterns_count_what_fans_out(
    graph: GraphModel,
    rule: PatternRule,
    node: NodeModel,
    trigger: Option<Seq<char>>,
    now: Timestamp,
)
    requires
        graph.edges.dom().finite(),
        graph.edges.len() <= usize::MAX,
    ensures
        ({
            let hits = Set::new(|t: Seq<char>| fans_out(graph, rule, node.id, t));
            let found = pattern_of(graph, rule, node, trigger, now);
            if node.type_id == rule.anchor_type@ && (rule.anchor_predicate is Some ==> predicate_holds(
                rule.anchor_predicate->0,
                node.properties,
            )) && hits.len() >= rule.min_fan_out {
                &&& found.len() == 1
                &&& found[0].severity == rule.severity
                &&& found[0].trigger_event == trigger
                &&& found[0].detected_at == now
                &&& found[0].kind matches AnomalyKindModel::ForbiddenPattern {
                    anchor_node,
                    pattern_name,
                    fan_out,
                    matched_targets,
                } && {
                    &&& anchor_node == node.id
                    &&& pattern_name == rule.name@
                    &&& fan_out == hits.len()
                    &&& matched_targets.len() == hits.len()
                    &&& found[0].affected_nodes == seq![node.id] + matched_targets
                    &&& are_the_targets(graph, rule, node.id, matched_targets)
                }
            } else {
                found.len() == 0
            }
        }),
{
    let wanted = graph.edges_from(node.id).intersect(graph.edges_of_type(rule.edge_type@));
    let hits = Set::new(|t: Seq<char>| fans_out(graph, rule, node.id, t));
    assert(wanted.subset_of(graph.edges.dom()));
    vstd::set_lib::lemma_len_subset(wanted, graph.edges.dom());
    vstd::set_lib::lemma_set_subset_finite(graph.edges.dom(), wanted);
    law_finite_sets_have_an_order(graph.edges, wanted);
    let ids = in_order(wanted);
    let edges = edges_listed(graph, node.id, rule.edge_type@);
    assert(edges == ids.map_values(|t: Seq<char>| graph.edges[t]));
    targets_are_counted(graph, rule, ids);
    let hit = |t: Seq<char>| leads_to_target(graph, rule, graph.edges[t]);
    let kept = ids.filter(hit);
    let targets = targets_of(graph, rule, edges);
    assert(targets == kept.map_values(|t: Seq<char>| graph.edges[t].target));
    assert forall|t: Seq<char>| #[trigger] kept.contains(t) <==> hits.contains(t) by {
        if kept.contains(t) {
            ids.lemma_filter_contains_rev(hit, t);
            let i = kept.index_of(t);
            ids.lemma_filter_pred(hit, i);
            assert(ids.contains(t));
        }
        if hits.contains(t) {
            assert(wanted.contains(t));
            assert(ids.contains(t));
            let i = ids.index_of(t);
            assert(hit(ids[i]));
            ids.lemma_filter_contains(hit, i);
        }
    }
    kept_are_distinct(ids, hit);
    kept.unique_seq_to_set();
    assert forall|t: Seq<char>| #[trigger] kept.to_set().contains(t) <==> hits.contains(t) by {
        assert(kept.contains(t) <==> hits.contains(t));
    }
    assert(kept.to_set() =~= hits);
    assert forall|t: Seq<char>| #[trigger] fans_out(graph, rule, node.id, t) implies targets.contains(
        graph.edges[t].target,
    ) by {
        assert(hits.contains(t));
        assert(kept.contains(t));
        let i = kept.index_of(t);
        assert(targets[i] == graph.edges[t].target);
    }
    assert forall|u: Seq<char>| #[trigger] targets.contains(u) implies exists|t: Seq<char>| #[trigger]
        fans_out(graph, rule, node.id, t) && graph.edges[t].target == u by {
        let i = targets.index_of(u);
        assert(kept.contains(kept[i]));
        assert(hits.contains(kept[i]));
        assert(fans_out(graph, rule, node.id, kept[i]));
    }
    assert(are_the_targets(graph, rule, node.id, targets));
    assert(targets.len() == hits.len());
    vstd::set_lib::lemma_len_subset(hits, wanted);
}

/// The list holds the targets of the edges that fan out from the node, and nothing else.
pub open spec fn are_the_targets(graph: GraphModel, rule: PatternRule, node: Seq<char>, targets: Seq<Seq<char>>) -> bool {
    &&& forall|t: Seq<char>| #[trigger] fans_out(graph, rule, node, t) ==> targets.contains(graph.edges[t].target)
    &&& forall|u: Seq<char>| #[trigger]
        targets.contains(u) ==> exists|t: Seq<char>| #[trigger]
            fans_out(graph, rule, node, t) && graph.edges[t].target == u
}

proof fn kept_are_distinct(ids: Seq<Seq<char>>, hit: spec_fn(Seq<char>) -> bool)
    requires
        ids.no_duplicates(),
    ensures
        ids.filter(hit).no_duplicates(),
    decreases ids.len(),
{
    reveal(Seq::filter);
    if ids.len() > 0 {
        let fewer = ids.drop_last();
        assert(fewer.no_duplicates());
        kept_are_distinct(fewer, hit);
        let kept = fewer.filter(hit);
        if hit(ids.last()) {
            assert(ids.filter(hit) =~= kept.push(ids.last()));
            assert forall|i: int| 0 <= i < kept.len() implies kept[i] != ids.last() by {
                fewer.lemma_filter_contains_rev(hit, kept[i]);
                let k = fewer.index_of(kept[i]);
                assert(ids[k] == kept[i]);
                assert(ids[ids.len() - 1] == ids.last());
            }
        }
    }
}

/// The condition that a property is there is met exactly where it is; an equal value is one
/// that is there and equal. All of no conditions hold, and none of them.
pub proof fn law_conditions_mean_what_they_say(
    key: String,
    expected: crate::value::Value,
    threshold: Number,
    properties: Map<Seq<char>, ValueModel>,
)
    ensures
        predicate_holds(PropertyPredicate::Exists(key), properties) <==> properties.contains_key(key@),
        predicate_holds(PropertyPredicate::Equals(key, expected), properties) <==> properties.contains_key(key@)
            && values_equal(properties[key@], expected@),
        !properties.contains_key(key@) ==> !predicate_holds(PropertyPredicate::GreaterThan(key, threshold), properties)
            && !predicate_holds(PropertyPredicate::LessThan(key, threshold), properties),
        properties.contains_key(key@) && !(properties[key@] is Int) && !(properties[key@] is Float) ==> !predicate_holds(
            PropertyPredicate::GreaterThan(key, threshold),
            properties,
        ) && !predicate_holds(PropertyPredicate::LessThan(key, threshold), properties),
        properties.contains_key(key@) && properties[key@] is Float ==> {
            let x = properties[key@]->Float_0;
            &&& predicate_holds(PropertyPredicate::GreaterThan(key, threshold), properties) <==> threshold.below(x)
            &&& predicate_holds(PropertyPredicate::LessThan(key, threshold), properties) <==> x.below(threshold)
        },
        properties.contains_key(key@) && properties[key@] is Int && threshold.whole() is Some ==> {
            let n = properties[key@]->Int_0;
            &&& predicate_holds(PropertyPredicate::GreaterThan(key, threshold), properties) <==> n
                > threshold.whole()->0
            &&& predicate_holds(PropertyPredicate::LessThan(key, threshold), properties) <==> n
                < threshold.whole()->0
        },
        !(predicate_holds(PropertyPredicate::GreaterThan(key, threshold), properties) && predicate_holds(
            PropertyPredicate::LessThan(key, threshold),
            properties,
        )),
{
}

/// Conditions joined: all hold together exactly where each does, and one of them where some does.
pub proof fn law_joined_conditions(predicate: PropertyPredicate, properties: Map<Seq<char>, ValueModel>)
    ensures
        predicate matches PropertyPredicate::All(parts) ==> (predicate_holds(predicate, properties) <==> forall|i: int|
            0 <= i < parts@.len() ==> predicate_holds(#[trigger] parts@[i], properties)),
        predicate matches PropertyPredicate::Any(parts) ==> (predicate_holds(predicate, properties) <==> exists|i: int|
            0 <= i < parts@.len() && predicate_holds(#[trigger] parts@[i], properties)),
{
}

/// A counterfactual rule finds something of a node exactly where some event is about the node,
/// and without these events and what they brought about either enough of the events are gone or
/// enough of the graph is another. The impact counts every node and edge that is apart.
pub proof fn law_outliers_are_what_much_hangs_on(
    rule: CounterfactualRule,
    graph: GraphModel,
    events: Seq<EventModel>,
    node: Seq<char>,
    now: Timestamp,
)
    ensures
        ({
            let ids = removal_set(events, about(events, node));
            let other = crate::counterfactual::replayed_graph(
                events.filter(|e: EventModel| !ids.contains(e.id)),
                Set::empty(),
            );
            let nodes = Set::new(|t: Seq<char>| node_is_apart(graph, other, t)).len();
            let edges = Set::new(|t: Seq<char>| edge_is_apart(graph, other, t)).len();
            let found = outlier_of(rule, graph, events, node, now);
            let asked = exists|i: int| 0 <= i < events.len() && (#[trigger] events[i]).kind.target() == Some(node);
            &&& !asked ==> found.len() == 0
            &&& asked && nodes + edges <= usize::MAX && nodes + edges >= rule.min_graph_impact ==> found.len() == 1
            &&& found.len() > 0 ==> {
                &&& found.len() == 1
                &&& found[0].severity == rule.severity
                &&& found[0].affected_nodes == seq![node]
                &&& found[0].detected_at == now
                &&& found[0].kind matches AnomalyKindModel::CounterfactualOutlier {
                    source_node,
                    events_removed,
                    graph_elements_affected,
                    removal_fraction,
                } && {
                    &&& source_node == node
                    &&& events_removed == ids.len() as usize
                    &&& nodes + edges <= usize::MAX ==> graph_elements_affected == nodes + edges
                    &&& nodes + edges < rule.min_graph_impact ==> !removal_fraction.below(rule.min_removal_fraction)
                }
            }
        }),
{
    let chosen = about(events, node);
    let ids = removal_set(events, chosen);
    crate::laws::counterfactuals::law_removed_events_leave_no_trace(events, ids);
    let other = crate::counterfactual::replayed_graph(events, ids);
    impact_counts_what_is_apart(graph, other);
    if exists|i: int| 0 <= i < events.len() && (#[trigger] events[i]).kind.target() == Some(node) {
        let i = choose|i: int| 0 <= i < events.len() && (#[trigger] events[i]).kind.target() == Some(node);
        assert(chosen[i]);
        something_is_chosen(chosen, i);
    } else {
        assert forall|i: int| 0 <= i < chosen.len() implies !chosen[i] by {
            assert(events[i].kind.target() != Some(node));
        }
        nothing_is_chosen(chosen);
    }
}

proof fn something_is_chosen(chosen: Seq<bool>, i: int)
    requires
        0 <= i < chosen.len(),
        chosen[i],
    ensures
        crate::counterfactual::chosen_count(chosen) > 0,
    decreases chosen.len(),
{
    if i < chosen.len() - 1 {
        something_is_chosen(chosen.drop_last(), i);
    }
}

proof fn nothing_is_chosen(chosen: Seq<bool>)
    requires
        forall|i: int| 0 <= i < chosen.len() ==> !chosen[i],
    ensures
        crate::counterfactual::chosen_count(chosen) == 0,
    decreases chosen.len(),
{
    if chosen.len() > 0 {
        nothing_is_chosen(chosen.drop_last());
    }
}

proof fn impact_counts_what_is_apart(one: GraphModel, other: GraphModel)
    ensures
        ({
            let nodes = Set::new(|t: Seq<char>| node_is_apart(one, other, t)).len();
            let edges = Set::new(|t: Seq<char>| edge_is_apart(one, other, t)).len();
            &&& nodes + edges <= usize::MAX ==> graph_impact(one, other) == nodes + edges
            &&& graph_impact(one, other) <= usize::MAX
            &&& graph_impact(one, other) <= nodes + edges
        }),
{
    let nodes = nodes_only_in(one, other).union(nodes_only_in(other, one)).union(nodes_differing(one, other));
    let edges = edges_only_in(one, other).union(edges_only_in(other, one)).union(edges_differing(one, other));
    assert forall|t: Seq<char>| #[trigger] nodes.contains(t) <==> node_is_apart(one, other, t) by {
        properties_apart(one.nodes[t].properties, other.nodes[t].properties);
    }
    assert forall|t: Seq<char>| #[trigger] edges.contains(t) <==> edge_is_apart(one, other, t) by {
        properties_apart(one.edges[t].properties, other.edges[t].properties);
    }
    assert(nodes =~= Set::new(|t: Seq<char>| node_is_apart(one, other, t)));
    assert(edges =~= Set::new(|t: Seq<char>| edge_is_apart(one, other, t)));
}

proof fn properties_apart(p: Map<Seq<char>, ValueModel>, q: Map<Seq<char>, ValueModel>)
    ensures
        (exists|k: Seq<char>| #[trigger] apart(p, q, k)) <==> exists|k: Seq<char>| #[trigger] property_differs(p, q, k),
{
    if exists|k: Seq<char>| #[trigger] apart(p, q, k) {
        let k = choose|k: Seq<char>| #[trigger] apart(p, q, k);
        assert(property_differs(p, q, k));
    }
    if exists|k: Seq<char>| #[trigger] property_differs(p, q, k) {
        let k = choose|k: Seq<char>| #[trigger] property_differs(p, q, k);
        assert(apart(p, q, k));
    }
}

} // verus!
