//! Anomalies, the rules that find them, and the conditions the rules use.

use crate::commit_ledger::{hex, hex_text};
use crate::graph::Node;
use crate::ids::{opt_text, texts, EventId, NodeId};
use crate::number::{nearest_bits, Number};
use crate::text::{decimal, decimal_text, join, joined, quote, quoted, signed_decimal, signed_text, string_texts};
use crate::time::Timestamp;
use crate::value::{values_equal, Value, ValueModel};
use std::collections::hash_map::DefaultHasher;
use std::hash::Hasher;
use vstd::prelude::*;
use vstd::std_specs::hash::DefaultHasherAdditionalSpecFns;
use vstd::string::StringExecFns;
use vstd::utf8::encode_utf8;

verus! {

/// Which way a property drifts.
#[derive(Debug, Clone, Copy, PartialEq, Eq, Structural, Hash)]
pub enum DriftDirection {
    Increasing,
    Decreasing,
}

/// What is out of the ordinary.
#[derive(Debug, PartialEq)]
pub enum AnomalyKind {
    TopologyDegree { node_id: NodeId, edge_type: String, expected_min: u32, expected_max: u32, actual: u32 },
    CascadeAmplification { cascade_event_count: usize, cascade_depth: u32, normal_max_count: usize, normal_max_depth: u32 },
    TemporalDrift { node_id: NodeId, property: String, direction: DriftDirection, data_points: usize, duration_secs: i64 },
    ChangeRateAnomaly { node_id: NodeId, changes_in_window: usize, normal_max: usize, window_secs: i64 },
    StructuralOrphan { node_id: NodeId, missing_edge_type: String },
    TimeWindowViolation { node_id: NodeId, change_hour: u32, expected_start_hour: u32, expected_end_hour: u32, violations: usize, total_changes: usize },
    CounterfactualOutlier { source_node: NodeId, events_removed: usize, graph_elements_affected: usize, removal_fraction: Number },
    ForbiddenPattern { anchor_node: NodeId, pattern_name: String, fan_out: usize, matched_targets: Vec<NodeId> },
}

/// What a kind of anomaly stands for.
pub enum AnomalyKindModel {
    TopologyDegree { node_id: Seq<char>, edge_type: Seq<char>, expected_min: u32, expected_max: u32, actual: u32 },
    CascadeAmplification { cascade_event_count: usize, cascade_depth: u32, normal_max_count: usize, normal_max_depth: u32 },
    TemporalDrift { node_id: Seq<char>, property: Seq<char>, direction: DriftDirection, data_points: usize, duration_secs: i64 },
    ChangeRateAnomaly { node_id: Seq<char>, changes_in_window: usize, normal_max: usize, window_secs: i64 },
    StructuralOrphan { node_id: Seq<char>, missing_edge_type: Seq<char> },
    TimeWindowViolation { node_id: Seq<char>, change_hour: u32, expected_start_hour: u32, expected_end_hour: u32, violations: usize, total_changes: usize },
    CounterfactualOutlier { source_node: Seq<char>, events_removed: usize, graph_elements_affected: usize, removal_fraction: Number },
    ForbiddenPattern { anchor_node: Seq<char>, pattern_name: Seq<char>, fan_out: usize, matched_targets: Seq<Seq<char>> },
}

impl View for AnomalyKind {
    type V = AnomalyKindModel;

    open spec fn view(&self) -> AnomalyKindModel {
        match *self {
            AnomalyKind::TopologyDegree { node_id, edge_type, expected_min, expected_max, actual } => AnomalyKindModel::TopologyDegree { node_id: node_id@, edge_type: edge_type@, expected_min: expected_min, expected_max: expected_max, actual: actual },
            AnomalyKind::CascadeAmplification { cascade_event_count, cascade_depth, normal_max_count, normal_max_depth } => AnomalyKindModel::CascadeAmplification { cascade_event_count: cascade_event_count, cascade_depth: cascade_depth, normal_max_count: normal_max_count, normal_max_depth: normal_max_depth },
            AnomalyKind::TemporalDrift { node_id, property, direction, data_points, duration_secs } => AnomalyKindModel::TemporalDrift { node_id: node_id@, property: property@, direction: direction, data_points: data_points, duration_secs: duration_secs },
            AnomalyKind::ChangeRateAnomaly { node_id, changes_in_window, normal_max, window_secs } => AnomalyKindModel::ChangeRateAnomaly { node_id: node_id@, changes_in_window: changes_in_window, normal_max: normal_max, window_secs: window_secs },
            AnomalyKind::StructuralOrphan { node_id, missing_edge_type } => AnomalyKindModel::StructuralOrphan { node_id: node_id@, missing_edge_type: missing_edge_type@ },
            AnomalyKind::TimeWindowViolation { node_id, change_hour, expected_start_hour, expected_end_hour, violations, total_changes } => AnomalyKindModel::TimeWindowViolation { node_id: node_id@, change_hour: change_hour, expected_start_hour: expected_start_hour, expected_end_hour: expected_end_hour, violations: violations, total_changes: total_changes },
            AnomalyKind::CounterfactualOutlier { source_node, events_removed, graph_elements_affected, removal_fraction } => AnomalyKindModel::CounterfactualOutlier { source_node: source_node@, events_removed: events_removed, graph_elements_affected: graph_elements_affected, removal_fraction: removal_fraction },
            AnomalyKind::ForbiddenPattern { anchor_node, pattern_name, fan_out, matched_targets } => AnomalyKindModel::ForbiddenPattern { anchor_node: anchor_node@, pattern_name: pattern_name@, fan_out: fan_out, matched_targets: texts(matched_targets@) },
        }
    }
}

/// A report of something out of the ordinary.
#[derive(Debug, PartialEq)]
pub struct Anomaly {
    pub kind: AnomalyKind,
    pub description: String,
    pub severity: Number,
    pub affected_nodes: Vec<NodeId>,
    pub trigger_event: Option<EventId>,
    pub detected_at: Timestamp,
}

/// What an anomaly stands for.
pub struct AnomalyModel {
    pub kind: AnomalyKindModel,
    pub description: Seq<char>,
    pub severity: Number,
    pub affected_nodes: Seq<Seq<char>>,
    pub trigger_event: Option<Seq<char>>,
    pub detected_at: Timestamp,
}

impl View for Anomaly {
    type V = AnomalyModel;

    open spec fn view(&self) -> AnomalyModel {
        AnomalyModel {
            kind: self.kind@,
            description: self.description@,
            severity: self.severity,
            affected_nodes: texts(self.affected_nodes@),
            trigger_event: opt_text(self.trigger_event),
            detected_at: self.detected_at,
        }
    }
}

/// What a list of anomalies stands for.
pub open spec fn anomaly_models(anomalies: Seq<Anomaly>) -> Seq<AnomalyModel> {
    anomalies.map_values(|a: Anomaly| a@)
}

impl AnomalyKindModel {
    /// The name of the kind of anomaly.
    pub open spec fn name(self) -> Seq<char> {
        match self {
            AnomalyKindModel::TopologyDegree { .. } => "topology_degree"@,
            AnomalyKindModel::CascadeAmplification { .. } => "cascade_amplification"@,
            AnomalyKindModel::TemporalDrift { .. } => "temporal_drift"@,
            AnomalyKindModel::ChangeRateAnomaly { .. } => "change_rate_anomaly"@,
            AnomalyKindModel::StructuralOrphan { .. } => "structural_orphan"@,
            AnomalyKindModel::TimeWindowViolation { .. } => "time_window_violation"@,
            AnomalyKindModel::CounterfactualOutlier { .. } => "counterfactual_outlier"@,
            AnomalyKindModel::ForbiddenPattern { .. } => "forbidden_pattern"@,
        }
    }
}

impl AnomalyKind {
    /// The name of the kind of anomaly.
    pub fn kind_name(&self) -> (r: &'static str)
        ensures
            r@ == self@.name(),
    {
        match self {
            AnomalyKind::TopologyDegree { .. } => "topology_degree",
            AnomalyKind::CascadeAmplification { .. } => "cascade_amplification",
            AnomalyKind::TemporalDrift { .. } => "temporal_drift",
            AnomalyKind::ChangeRateAnomaly { .. } => "change_rate_anomaly",
            AnomalyKind::StructuralOrphan { .. } => "structural_orphan",
            AnomalyKind::TimeWindowViolation { .. } => "time_window_violation",
            AnomalyKind::CounterfactualOutlier { .. } => "counterfactual_outlier",
            AnomalyKind::ForbiddenPattern { .. } => "forbidden_pattern",
        }
    }
}

/// A version of a property: the value it took, and from when on.
#[derive(Debug, PartialEq)]
pub struct PropertyVersion {
    pub effective_from: Timestamp,
    pub value: Value,
}

/// The versions of a property, in order.
#[derive(Debug, PartialEq)]
pub struct PropertyHistory {
    pub property: String,
    pub versions: Vec<PropertyVersion>,
}

/// The history of a node's properties.
#[derive(Debug, PartialEq)]
pub struct NodeHistory {
    pub node_id: NodeId,
    pub type_id: String,
    pub properties: Vec<PropertyHistory>,
}

/// Nodes of a type should have between so many and so many edges of a type.
#[derive(Debug, PartialEq)]
pub struct TopologyRule {
    pub node_type: String,
    pub edge_type: String,
    pub min_degree: u32,
    pub max_degree: u32,
    pub severity: Number,
}

/// Cascades should have at most so many events and reach at most such a depth.
#[derive(Debug, Clone, Copy, PartialEq)]
pub struct CascadeRule {
    pub max_event_count: usize,
    pub max_depth: u32,
    pub severity: Number,
}

/// The bit pattern of seven tenths.
pub const SEVEN_TENTHS: u64 = 0x3fe6_6666_6666_6666;

impl Default for CascadeRule {
    fn default() -> (r: Self)
        ensures
            r.max_event_count == 50,
            r.max_depth == 10,
            r.severity.bits == SEVEN_TENTHS,
    {
        CascadeRule { max_event_count: 50, max_depth: 10, severity: Number::from_bits(SEVEN_TENTHS) }
    }
}

/// A property of nodes of a type should not drift one way for so many changes.
#[derive(Debug, PartialEq)]
pub struct DriftRule {
    pub node_type: String,
    pub property: String,
    pub min_consecutive: usize,
    pub severity: Number,
}

/// Nodes of a type should not change more than so many times in so many seconds.
#[derive(Debug, PartialEq)]
pub struct ChangeRateRule {
    pub node_type: String,
    pub max_changes: usize,
    pub window_secs: i64,
    pub severity: Number,
}

/// Nodes of a type should change only between two hours of the day, both included. A
/// window whose end is before its start goes past midnight.
#[derive(Debug, PartialEq)]
pub struct TimeWindowRule {
    pub node_type: String,
    pub start_hour: u32,
    pub end_hour: u32,
    /// How many changes outside the window are tolerated.
    pub tolerance: usize,
    /// How many seconds to look back; all history where it is not positive.
    pub lookback_secs: i64,
    pub severity: Number,
}

/// Without the events on one node of a type, not too many events and not too much of the
/// graph should be gone.
#[derive(Debug, PartialEq)]
pub struct CounterfactualRule {
    pub node_type: String,
    pub min_removal_fraction: Number,
    pub min_graph_impact: usize,
    pub severity: Number,
}

/// A condition on a node's properties.
#[derive(Debug, PartialEq)]
pub enum PropertyPredicate {
    /// The property is there.
    Exists(String),
    /// The property has the value.
    Equals(String, Value),
    /// The property is a number above the threshold.
    GreaterThan(String, Number),
    /// The property is a number below the threshold.
    LessThan(String, Number),
    /// All of the conditions hold.
    All(Vec<PropertyPredicate>),
    /// One of the conditions holds.
    Any(Vec<PropertyPredicate>),
}

/// From a node of a type there should not lead edges of a type to so many nodes of a type.
#[derive(Debug, PartialEq)]
pub struct PatternRule {
    pub name: String,
    pub anchor_type: String,
    pub edge_type: String,
    pub target_type: String,
    pub min_fan_out: usize,
    pub target_predicate: Option<PropertyPredicate>,
    pub anchor_predicate: Option<PropertyPredicate>,
    pub severity: Number,
}

/// Whether an integer is above a number: compared as integers where the number is a whole
/// one in range, else as numbers.
pub open spec fn int_above(n: int, threshold: Number) -> bool {
    match threshold.whole() {
        Some(w) => n > w,
        None => threshold.below(Number { bits: nearest_bits(n) as u64 }),
    }
}

/// Whether an integer is below a number, in the same way.
pub open spec fn int_below(n: int, threshold: Number) -> bool {
    match threshold.whole() {
        Some(w) => n < w,
        None => (Number { bits: nearest_bits(n) as u64 }).below(threshold),
    }
}

/// Whether the condition holds of the properties.
pub open spec fn predicate_holds(predicate: PropertyPredicate, properties: Map<Seq<char>, ValueModel>) -> bool
    decreases predicate,
{
    match predicate {
        PropertyPredicate::Exists(key) => properties.contains_key(key@),
        PropertyPredicate::Equals(key, expected) => properties.contains_key(key@) && values_equal(
            properties[key@],
            expected@,
        ),
        PropertyPredicate::GreaterThan(key, threshold) => properties.contains_key(key@) && match properties[key@] {
            ValueModel::Int(n) => int_above(n, threshold),
            ValueModel::Float(x) => threshold.below(x),
            _ => false,
        },
        PropertyPredicate::LessThan(key, threshold) => properties.contains_key(key@) && match properties[key@] {
            ValueModel::Int(n) => int_below(n, threshold),
            ValueModel::Float(x) => x.below(threshold),
            _ => false,
        },
        PropertyPredicate::All(parts) => forall|i: int|
            0 <= i < parts@.len() ==> predicate_holds(#[trigger] parts@[i], properties),
        PropertyPredicate::Any(parts) => exists|i: int|
            0 <= i < parts@.len() && predicate_holds(#[trigger] parts@[i], properties),
    }
}

impl PropertyPredicate {
    /// Whether the condition holds of a node's properties.
    pub fn matches(&self, node: &Node) -> (r: bool)
        ensures
            r == predicate_holds(*self, node@.properties),
        decreases self,
    {
        match self {
            PropertyPredicate::Exists(key) => node.get(key.as_str()).is_some(),
            PropertyPredicate::Equals(key, expected) => match node.get(key.as_str()) {
                Some(value) => value.equals(expected),
                None => false,
            },
            PropertyPredicate::GreaterThan(key, threshold) => match node.get(key.as_str()) {
                Some(Value::Int(n)) => match threshold.as_whole() {
                    Some(w) => (*n as i128) > w,
                    None => threshold.lt(Number::from_int(*n)),
                },
                Some(Value::Float(x)) => threshold.lt(*x),
                _ => false,
            },
            PropertyPredicate::LessThan(key, threshold) => match node.get(key.as_str()) {
                Some(Value::Int(n)) => match threshold.as_whole() {
                    Some(w) => (*n as i128) < w,
                    None => Number::from_int(*n).lt(*threshold),
                },
                Some(Value::Float(x)) => x.lt(*threshold),
                _ => false,
            },
            PropertyPredicate::All(parts) => {
                let mut i: usize = 0;
                while i < parts.len()
                    invariant
                        i <= parts@.len(),
                        *self == PropertyPredicate::All(*parts),
                        forall|j: int| 0 <= j < i ==> predicate_holds(#[trigger] parts@[j], node@.properties),
                    decreases parts@.len() - i,
                {
                    assert(decreases_to!(*self => self->All_0));
                    if !parts[i].matches(node) {
                        assert(!predicate_holds(parts@[i as int], node@.properties));
                        return false;
                    }
                    i += 1;
                }
                true
            },
            PropertyPredicate::Any(parts) => {
                let mut i: usize = 0;
                while i < parts.len()
                    invariant
                        i <= parts@.len(),
                        *self == PropertyPredicate::Any(*parts),
                        forall|j: int| 0 <= j < i ==> !predicate_holds(#[trigger] parts@[j], node@.properties),
                    decreases parts@.len() - i,
                {
                    assert(decreases_to!(*self => self->Any_0));
                    if parts[i].matches(node) {
                        assert(predicate_holds(parts@[i as int], node@.properties));
                        return true;
                    }
                    i += 1;
                }
                false
            },
        }
    }
}

/// The value as a number, if it is one.
pub open spec fn numeric(value: ValueModel) -> Option<Number> {
    match value {
        ValueModel::Int(n) => Some(Number { bits: nearest_bits(n) as u64 }),
        ValueModel::Float(x) => Some(x),
        _ => None,
    }
}

/// The value as a number, if it is one.
pub fn value_to_number(value: &Value) -> (r: Option<Number>)
    ensures
        r == numeric(value@),
{
    match value {
        Value::Int(n) => Some(Number::from_int(*n)),
        Value::Float(x) => Some(*x),
        _ => None,
    }
}

/// Whether every value is a number.
pub open spec fn all_numeric(data: Seq<PropertyVersion>) -> bool {
    forall|i: int| 0 <= i < data.len() ==> numeric((#[trigger] data[i]).value@) is Some
}

/// Whether every value is above the one before it.
pub open spec fn rises(data: Seq<PropertyVersion>) -> bool {
    forall|i: int, j: int|
        0 <= i < data.len() - 1 && j == i + 1 ==> numeric((#[trigger] data[i]).value@)->0.below(
            numeric((#[trigger] data[j]).value@)->0,
        )
}

/// Whether every value is below the one before it.
pub open spec fn falls(data: Seq<PropertyVersion>) -> bool {
    forall|i: int, j: int|
        0 <= i < data.len() - 1 && j == i + 1 ==> numeric((#[trigger] data[j]).value@)->0.below(
            numeric((#[trigger] data[i]).value@)->0,
        )
}

/// Which way the values go, if they go one way throughout.
pub open spec fn trend_of(data: Seq<PropertyVersion>) -> Option<DriftDirection> {
    if data.len() < 2 || !all_numeric(data) {
        None
    } else if rises(data) {
        Some(DriftDirection::Increasing)
    } else if falls(data) {
        Some(DriftDirection::Decreasing)
    } else {
        None
    }
}

/// Which way a series of values goes, if there are at least two, all numbers, and they go
/// one way throughout.
pub fn detect_monotonic_trend(data: &[PropertyVersion]) -> (r: Option<DriftDirection>)
    ensures
        r == trend_of(data@),
{
    if data.len() < 2 {
        return None;
    }
    let mut rising: bool = true;
    let mut falling: bool = true;
    let mut previous: Number = match value_to_number(&data[0].value) {
        Some(x) => x,
        None => {
            assert(numeric(data@[0].value@) is None);
            return None;
        },
    };
    let mut i: usize = 1;
    while i < data.len()
        invariant
            1 <= i <= data@.len(),
            Some(previous) == numeric(data@[i - 1].value@),
            forall|j: int| 0 <= j < i ==> numeric((#[trigger] data@[j]).value@) is Some,
            rising == forall|j: int, k: int|
                0 <= j < i - 1 && k == j + 1 ==> numeric((#[trigger] data@[j]).value@)->0.below(
                    numeric((#[trigger] data@[k]).value@)->0,
                ),
            falling == forall|j: int, k: int|
                0 <= j < i - 1 && k == j + 1 ==> numeric((#[trigger] data@[k]).value@)->0.below(
                    numeric((#[trigger] data@[j]).value@)->0,
                ),
        decreases data@.len() - i,
    {
        let next: Number = match value_to_number(&data[i].value) {
            Some(x) => x,
            None => {
                assert(numeric(data@[i as int].value@) is None);
                return None;
            },
        };
        let above = previous.lt(next);
        let below = next.lt(previous);
        proof {
            let j = i - 1;
            assert(numeric(data@[j].value@)->0 == previous);
            assert(numeric(data@[j + 1].value@)->0 == next);
        }
        if !above {
            rising = false;
        }
        if !below {
            falling = false;
        }
        previous = next;
        i += 1;
    }
    if rising {
        Some(DriftDirection::Increasing)
    } else if falling {
        Some(DriftDirection::Decreasing)
    } else {
        None
    }
}

/// Whether an hour of the day lies in a window, both ends included. A window whose end is
/// before its start goes past midnight.
pub open spec fn in_window(hour: int, start: int, end: int) -> bool {
    if start <= end {
        start <= hour <= end
    } else {
        hour >= start || hour <= end
    }
}

/// Whether an hour of the day lies in a window.
pub fn is_in_time_window(hour: u32, start: u32, end: u32) -> (r: bool)
    ensures
        r == in_window(hour as int, start as int, end as int),
{
    if start <= end {
        hour >= start && hour <= end
    } else {
        hour >= start || hour <= end
    }
}

/// An hour lies in a window that goes past midnight exactly where it does not lie in what
/// is left of the day between its end and its start.
pub proof fn law_windows_past_midnight(hour: int, start: int, end: int)
    requires
        0 <= hour < 24,
        0 <= end < start < 24,
    ensures
        in_window(hour, start, end) <==> !(end < hour < start),
{
}

/// What an anomaly's identifier is taken of: the rendered kind, the nodes and the
/// description, each closed by the byte that ends a text.
pub open spec fn identity_writes(kind: Seq<char>, nodes: Seq<Seq<char>>, description: Seq<char>) -> Seq<Seq<u8>> {
    (text_writes(kind) + all_text_writes(nodes)) + text_writes(description)
}

/// What hashing a text writes.
pub open spec fn text_writes(text: Seq<char>) -> Seq<Seq<u8>> {
    seq![encode_utf8(text), seq![0xffu8]]
}

/// What hashing texts one after another writes.
pub open spec fn all_text_writes(list: Seq<Seq<char>>) -> Seq<Seq<u8>>
    decreases list.len(),
{
    if list.len() == 0 {
        Seq::empty()
    } else {
        all_text_writes(list.drop_last()) + text_writes(list.last())
    }
}

fn write_text(hasher: &mut DefaultHasher, text: &str)
    ensures
        final(hasher)@ == old(hasher)@ + text_writes(text@),
{
    let ghost before = hasher@;
    hasher.write(text.as_bytes());
    let mut end: Vec<u8> = Vec::new();
    end.push(0xff);
    hasher.write(end.as_slice());
    proof {
        assert(end@ =~= seq![0xffu8]);
        assert(hasher@ =~= before + text_writes(text@));
    }
}

/// The name of a direction.
pub open spec fn direction_text(direction: DriftDirection) -> Seq<char> {
    match direction {
        DriftDirection::Increasing => "Increasing"@,
        DriftDirection::Decreasing => "Decreasing"@,
    }
}

/// The identifier of a node, in quotes, under the name of its type.
pub open spec fn node_text(id: Seq<char>) -> Seq<char> {
    "NodeId("@ + quoted(id) + ")"@
}

/// The identifiers of nodes, with commas between them, in brackets.
pub open spec fn node_list_text(list: Seq<Seq<char>>) -> Seq<char> {
    "["@ + joined(list.map_values(|t: Seq<char>| node_text(t)), ", "@) + "]"@
}

/// A kind of anomaly with all its details. A number stands by its bits.
pub open spec fn kind_text(kind: AnomalyKindModel) -> Seq<char> {
    match kind {
        AnomalyKindModel::TopologyDegree { node_id, edge_type, expected_min, expected_max, actual } => "TopologyDegree { node_id: "@
            + node_text(node_id)
            + ", edge_type: "@
            + quoted(edge_type)
            + ", expected_min: "@
            + decimal_text(expected_min as nat)
            + ", expected_max: "@
            + decimal_text(expected_max as nat)
            + ", actual: "@
            + decimal_text(actual as nat)
            + " }"@,
        AnomalyKindModel::CascadeAmplification { cascade_event_count, cascade_depth, normal_max_count, normal_max_depth } => "CascadeAmplification { cascade_event_count: "@
            + decimal_text(cascade_event_count as nat)
            + ", cascade_depth: "@
            + decimal_text(cascade_depth as nat)
            + ", normal_max_count: "@
            + decimal_text(normal_max_count as nat)
            + ", normal_max_depth: "@
            + decimal_text(normal_max_depth as nat)
            + " }"@,
        AnomalyKindModel::TemporalDrift { node_id, property, direction, data_points, duration_secs } => "TemporalDrift { node_id: "@
            + node_text(node_id)
            + ", property: "@
            + quoted(property)
            + ", direction: "@
            + direction_text(direction)
            + ", data_points: "@
            + decimal_text(data_points as nat)
            + ", duration_secs: "@
            + signed_text(duration_secs as int)
            + " }"@,
        AnomalyKindModel::ChangeRateAnomaly { node_id, changes_in_window, normal_max, window_secs } => "ChangeRateAnomaly { node_id: "@
            + node_text(node_id)
            + ", changes_in_window: "@
            + decimal_text(changes_in_window as nat)
            + ", normal_max: "@
            + decimal_text(normal_max as nat)
            + ", window_secs: "@
            + signed_text(window_secs as int)
            + " }"@,
        AnomalyKindModel::StructuralOrphan { node_id, missing_edge_type } => "StructuralOrphan { node_id: "@
            + node_text(node_id)
            + ", missing_edge_type: "@
            + quoted(missing_edge_type)
            + " }"@,
        AnomalyKindModel::TimeWindowViolation { node_id, change_hour, expected_start_hour, expected_end_hour, violations, total_changes } => "TimeWindowViolation { node_id: "@
            + node_text(node_id)
            + ", change_hour: "@
            + decimal_text(change_hour as nat)
            + ", expected_start_hour: "@
            + decimal_text(expected_start_hour as nat)
            + ", expected_end_hour: "@
            + decimal_text(expected_end_hour as nat)
            + ", violations: "@
            + decimal_text(violations as nat)
            + ", total_changes: "@
            + decimal_text(total_changes as nat)
            + " }"@,
        AnomalyKindModel::CounterfactualOutlier { source_node, events_removed, graph_elements_affected, removal_fraction } => "CounterfactualOutlier { source_node: "@
            + node_text(source_node)
            + ", events_removed: "@
            + decimal_text(events_removed as nat)
            + ", graph_elements_affected: "@
            + decimal_text(graph_elements_affected as nat)
            + ", removal_fraction: "@
            + decimal_text(removal_fraction.bits as nat)
            + " }"@,
        AnomalyKindModel::ForbiddenPattern { anchor_node, pattern_name, fan_out, matched_targets } => "ForbiddenPattern { anchor_node: "@
            + node_text(anchor_node)
            + ", pattern_name: "@
            + quoted(pattern_name)
            + ", fan_out: "@
            + decimal_text(fan_out as nat)
            + ", matched_targets: "@
            + node_list_text(matched_targets)
            + " }"@,
    }
}

fn show_direction(direction: DriftDirection) -> (r: &'static str)
    ensures
        r@ == direction_text(direction),
{
    match direction {
        DriftDirection::Increasing => "Increasing",
        DriftDirection::Decreasing => "Decreasing",
    }
}

fn show_node(id: &NodeId) -> (r: String)
    ensures
        r@ == node_text(id@),
{
    let mut r = "NodeId(".to_owned();
    r.append(quote(id.as_str()).as_str());
    r.append(")");
    r
}

fn show_nodes(list: &Vec<NodeId>) -> (r: String)
    ensures
        r@ == node_list_text(texts(list@)),
{
    let mut parts: Vec<String> = Vec::new();
    let mut i: usize = 0;
    while i < list.len()
        invariant
            i <= list@.len(),
            parts@.len() == i,
            forall|j: int| 0 <= j < i ==> (#[trigger] parts@[j])@ == node_text(list@[j]@),
        decreases list@.len() - i,
    {
        parts.push(show_node(&list[i]));
        i += 1;
    }
    assert(string_texts(parts@) =~= texts(list@).map_values(|t: Seq<char>| node_text(t)));
    let mut r = "[".to_owned();
    r.append(join(&parts, ", ").as_str());
    r.append("]");
    r
}

fn show_kind(kind: &AnomalyKind) -> (r: String)
    ensures
        r@ == kind_text(kind@),
{
    match kind {
        AnomalyKind::TopologyDegree { node_id, edge_type, expected_min, expected_max, actual } => {
            let mut r = "TopologyDegree { node_id: ".to_owned();
            r.append(show_node(node_id).as_str());
            r.append(", edge_type: ");
            r.append(quote(edge_type.as_str()).as_str());
            r.append(", expected_min: ");
            r.append(decimal(*expected_min as u64).as_str());
            r.append(", expected_max: ");
            r.append(decimal(*expected_max as u64).as_str());
            r.append(", actual: ");
            r.append(decimal(*actual as u64).as_str());
            r.append(" }");
            r
        },
        AnomalyKind::CascadeAmplification { cascade_event_count, cascade_depth, normal_max_count, normal_max_depth } => {
            let mut r = "CascadeAmplification { cascade_event_count: ".to_owned();
            r.append(decimal(*cascade_event_count as u64).as_str());
            r.append(", cascade_depth: ");
            r.append(decimal(*cascade_depth as u64).as_str());
            r.append(", normal_max_count: ");
            r.append(decimal(*normal_max_count as u64).as_str());
            r.append(", normal_max_depth: ");
            r.append(decimal(*normal_max_depth as u64).as_str());
            r.append(" }");
            r
        },
        AnomalyKind::TemporalDrift { node_id, property, direction, data_points, duration_secs } => {
            let mut r = "TemporalDrift { node_id: ".to_owned();
            r.append(show_node(node_id).as_str());
            r.append(", property: ");
            r.append(quote(property.as_str()).as_str());
            r.append(", direction: ");
            r.append(show_direction(*direction));
            r.append(", data_points: ");
            r.append(decimal(*data_points as u64).as_str());
            r.append(", duration_secs: ");
            r.append(signed_decimal(*duration_secs).as_str());
            r.append(" }");
            r
        },
        AnomalyKind::ChangeRateAnomaly { node_id, changes_in_window, normal_max, window_secs } => {
            let mut r = "ChangeRateAnomaly { node_id: ".to_owned();
            r.append(show_node(node_id).as_str());
            r.append(", changes_in_window: ");
            r.append(decimal(*changes_in_window as u64).as_str());
            r.append(", normal_max: ");
            r.append(decimal(*normal_max as u64).as_str());
            r.append(", window_secs: ");
            r.append(signed_decimal(*window_secs).as_str());
            r.append(" }");
            r
        },
        AnomalyKind::StructuralOrphan { node_id, missing_edge_type } => {
            let mut r = "StructuralOrphan { node_id: ".to_owned();
            r.append(show_node(node_id).as_str());
            r.append(", missing_edge_type: ");
            r.append(quote(missing_edge_type.as_str()).as_str());
            r.append(" }");
            r
        },
        AnomalyKind::TimeWindowViolation { node_id, change_hour, expected_start_hour, expected_end_hour, violations, total_changes } => {
            let mut r = "TimeWindowViolation { node_id: ".to_owned();
            r.append(show_node(node_id).as_str());
            r.append(", change_hour: ");
            r.append(decimal(*change_hour as u64).as_str());
            r.append(", expected_start_hour: ");
            r.append(decimal(*expected_start_hour as u64).as_str());
            r.append(", expected_end_hour: ");
            r.append(decimal(*expected_end_hour as u64).as_str());
            r.append(", violations: ");
            r.append(decimal(*violations as u64).as_str());
            r.append(", total_changes: ");
            r.append(decimal(*total_changes as u64).as_str());
            r.append(" }");
            r
        },
        AnomalyKind::CounterfactualOutlier { source_node, events_removed, graph_elements_affected, removal_fraction } => {
            let mut r = "CounterfactualOutlier { source_node: ".to_owned();
            r.append(show_node(source_node).as_str());
            r.append(", events_removed: ");
            r.append(decimal(*events_removed as u64).as_str());
            r.append(", graph_elements_affected: ");
            r.append(decimal(*graph_elements_affected as u64).as_str());
            r.append(", removal_fraction: ");
            r.append(decimal(removal_fraction.to_bits()).as_str());
            r.append(" }");
            r
        },
        AnomalyKind::ForbiddenPattern { anchor_node, pattern_name, fan_out, matched_targets } => {
            let mut r = "ForbiddenPattern { anchor_node: ".to_owned();
            r.append(show_node(anchor_node).as_str());
            r.append(", pattern_name: ");
            r.append(quote(pattern_name.as_str()).as_str());
            r.append(", fan_out: ");
            r.append(decimal(*fan_out as u64).as_str());
            r.append(", matched_targets: ");
            r.append(show_nodes(matched_targets).as_str());
            r.append(" }");
            r
        },
    }
}

/// The identifier that an anomaly gets each time it is found.
pub open spec fn stable_text(anomaly: AnomalyModel) -> Seq<char> {
    "anom_"@ + hex_text(
        DefaultHasher::spec_finish(
            identity_writes(kind_text(anomaly.kind), anomaly.affected_nodes, anomaly.description),
        ) as nat,
        16,
    )
}

impl Anomaly {
    /// An identifier that the same anomaly gets each time it is found: taken of its kind with
    /// all details, its nodes and its description.
    pub fn stable_id(&self) -> (r: String)
        ensures
            r@ == stable_text(self@),
    {
        let ghost nodes = self@.affected_nodes;
        let mut hasher = DefaultHasher::new();
        let kind = show_kind(&self.kind);
        write_text(&mut hasher, kind.as_str());
        let ghost first = text_writes(kind_text(self@.kind));
        let mut i: usize = 0;
        proof {
            assert(nodes.take(0) =~= Seq::<Seq<char>>::empty());
            assert(hasher@ =~= first + all_text_writes(nodes.take(0)));
        }
        while i < self.affected_nodes.len()
            invariant
                i <= self.affected_nodes@.len(),
                nodes == texts(self.affected_nodes@),
                hasher@ == first + all_text_writes(nodes.take(i as int)),
            decreases self.affected_nodes@.len() - i,
        {
            write_text(&mut hasher, self.affected_nodes[i].as_str());
            proof {
                assert(nodes.take(i + 1).drop_last() =~= nodes.take(i as int));
                assert(nodes.take(i + 1).last() == self.affected_nodes@[i as int]@);
                assert(hasher@ =~= first + all_text_writes(nodes.take(i + 1)));
            }
            i += 1;
        }
        assert(nodes.take(self.affected_nodes@.len() as int) =~= nodes);
        write_text(&mut hasher, self.description.as_str());
        let mut r = "anom_".to_owned();
        r.append(hex(hasher.finish(), 16).as_str());
        r
    }
}

/// An anomaly found again, at another time and by another event, keeps its identifier.
pub proof fn law_anomalies_keep_their_identifier(one: AnomalyModel, other: AnomalyModel)
    requires
        one.kind == other.kind,
        one.affected_nodes == other.affected_nodes,
        one.description == other.description,
    ensures
        stable_text(one) == stable_text(other),
{
}

} // verus!
