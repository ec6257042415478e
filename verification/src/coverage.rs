//! Coverage: whether the graph holds what it is expected to hold.

use crate::arithmetic::{
    law_one_is_one, law_parts_are_at_most_one, law_parts_are_finite, law_quotients_keep_the_sign,
    law_quotients_of_ordered_numbers, law_rests_are_at_most_one, law_sums_keep_bounds,
    law_whole_numbers_keep_their_worth,
};
use crate::decimals::{fixed, fixed_text};
use crate::ids::{ascending, texts, NodeId};
use crate::number::{Number, ONE};
use crate::projection::{lemma_listed_count, GraphModel, Projection};
use crate::table::{lists_in_order, views};
use crate::text::{decimal, decimal_text, opt_chars, str_same, text_less, text_less_irreflexive};
use crate::time::Timestamp;
use vstd::prelude::*;
use vstd::string::StringExecFns;

verus! {

/// Something that the graph is expected to hold.
#[derive(Debug, PartialEq)]
pub enum CoverageExpectation {
    /// At least so many nodes of a type.
    MinNodeCount { node_type: String, min_count: usize },
    /// From every node of a type at least so many edges of a type to nodes of a type.
    EdgeCoverage { source_type: String, edge_type: String, target_type: String, min_per_source: usize },
    /// At least so many nodes of one type for each node of another.
    TypeRatio { numerator_type: String, denominator_type: String, min_ratio: Number },
}

/// A named set of expectations.
#[derive(Debug, PartialEq)]
pub struct CoverageModel {
    pub name: String,
    pub expectations: Vec<CoverageExpectation>,
    /// The type of the nodes that are evaluated: without it, all are.
    pub scope_node_type: Option<String>,
}

/// An expectation that is not met.
#[derive(Debug, PartialEq)]
pub struct CoverageGap {
    /// The place of the expectation in its model.
    pub expectation_index: usize,
    pub description: String,
    /// How far it is met, from nothing, zero, to almost, close to one.
    pub fulfillment: Number,
    /// The nodes that fall short, where there are any.
    pub affected_nodes: Vec<NodeId>,
}

/// What the evaluation of a model came to.
#[derive(Debug, PartialEq)]
pub struct CoverageReport {
    pub model_name: String,
    /// How much of what is expected is there, from zero to one.
    pub score: Number,
    pub total_expectations: usize,
    /// The number of expectations that are met.
    pub met: usize,
    pub gaps: Vec<CoverageGap>,
    pub evaluated_at: Timestamp,
}

impl CoverageReport {
    /// Whether all expectations are met.
    pub fn is_complete(&self) -> (r: bool)
        ensures
            r == (self.gaps@.len() == 0),
    {
        self.gaps.len() == 0
    }
}

/// The edges of a type from a node to nodes of a type.
pub open spec fn covering_edges(
    graph: GraphModel,
    node: Seq<char>,
    edge_type: Seq<char>,
    target_type: Seq<char>,
) -> Set<Seq<char>> {
    Set::new(
        |t: Seq<char>|
            graph.has_edge(t) && graph.edges[t].source == node && graph.edges[t].type_id == edge_type && graph.has_node(
                graph.edges[t].target,
            ) && graph.nodes[graph.edges[t].target].type_id == target_type,
    )
}

/// Whether nodes of the type are in the scope.
pub open spec fn in_scope(scope: Option<Seq<char>>, type_id: Seq<char>) -> bool {
    scope is None || scope == Some(type_id)
}

/// The nodes of a type that are in the scope.
pub open spec fn scoped_nodes(graph: GraphModel, scope: Option<Seq<char>>, type_id: Seq<char>) -> Set<Seq<char>> {
    if in_scope(scope, type_id) {
        graph.nodes_of_type(type_id)
    } else {
        Set::empty()
    }
}

/// The nodes of a type, in the scope, with fewer such edges than expected.
pub open spec fn uncovered(
    graph: GraphModel,
    scope: Option<Seq<char>>,
    source_type: Seq<char>,
    edge_type: Seq<char>,
    target_type: Seq<char>,
    min_per_source: nat,
) -> Set<Seq<char>> {
    Set::new(
        |t: Seq<char>|
            scoped_nodes(graph, scope, source_type).contains(t) && covering_edges(graph, t, edge_type, target_type).len()
                < min_per_source,
    )
}

/// The number of nodes of a type in the scope.
pub open spec fn count_of(graph: GraphModel, scope: Option<Seq<char>>, type_id: Seq<char>) -> nat {
    scoped_nodes(graph, scope, type_id).len()
}

/// The ratio of the numbers of nodes of two types in the scope.
pub open spec fn ratio_of(
    graph: GraphModel,
    scope: Option<Seq<char>>,
    numerator: Seq<char>,
    denominator: Seq<char>,
) -> Number {
    Number::part(count_of(graph, scope, numerator), count_of(graph, scope, denominator))
}

/// Whether an expectation is not met. Without nodes to hold it against, the second and the
/// third kind are met.
pub open spec fn unmet(expectation: CoverageExpectation, graph: GraphModel, scope: Option<Seq<char>>) -> bool {
    match expectation {
        CoverageExpectation::MinNodeCount { node_type, min_count } => count_of(graph, scope, node_type@) < min_count,
        CoverageExpectation::EdgeCoverage { source_type, edge_type, target_type, min_per_source } => uncovered(
            graph,
            scope,
            source_type@,
            edge_type@,
            target_type@,
            min_per_source as nat,
        ).len() > 0,
        CoverageExpectation::TypeRatio { numerator_type, denominator_type, min_ratio } => {
            let ratio = ratio_of(graph, scope, numerator_type@, denominator_type@);
            count_of(graph, scope, denominator_type@) > 0 && !(min_ratio.below(ratio) || min_ratio.equal(ratio))
        },
    }
}

/// The text on missing nodes.
pub open spec fn missing_nodes_text(min_count: nat, node_type: Seq<char>, actual: nat) -> Seq<char> {
    "Expected at least "@ + decimal_text(min_count) + " '"@ + node_type + "' nodes, found "@ + decimal_text(actual)
}

/// The text on missing edges.
pub open spec fn missing_edges_text(
    violators: nat,
    sources: nat,
    source_type: Seq<char>,
    min_per_source: nat,
    edge_type: Seq<char>,
    target_type: Seq<char>,
) -> Seq<char> {
    decimal_text(violators) + "/"@ + decimal_text(sources) + " '"@ + source_type + "' nodes lack the required "@
        + decimal_text(min_per_source) + " '"@ + edge_type + "' edges to '"@ + target_type + "' nodes"@
}

/// The text on a ratio that is too low.
pub open spec fn low_ratio_text(
    numerator: Seq<char>,
    denominator: Seq<char>,
    ratio: Number,
    least: Number,
    num: nat,
    den: nat,
) -> Seq<char> {
    "Ratio of '"@ + numerator + "' to '"@ + denominator + "' is "@ + fixed_text(ratio, 2) + " (expected >= "@
        + fixed_text(least, 2) + "). Have "@ + decimal_text(num) + " '"@ + numerator + "' for "@ + decimal_text(den)
        + " '"@ + denominator + "'."@
}

/// The gap is the one for an expectation that is not met.
pub open spec fn is_gap(
    gap: CoverageGap,
    index: int,
    expectation: CoverageExpectation,
    graph: GraphModel,
    scope: Option<Seq<char>>,
) -> bool {
    &&& gap.expectation_index == index
    &&& match expectation {
        CoverageExpectation::MinNodeCount { node_type, min_count } => {
            let actual = count_of(graph, scope, node_type@);
            &&& gap.description@ == missing_nodes_text(min_count as nat, node_type@, actual)
            &&& gap.fulfillment == Number::part(actual, min_count as nat)
            &&& gap.affected_nodes@.len() == 0
        },
        CoverageExpectation::EdgeCoverage { source_type, edge_type, target_type, min_per_source } => {
            let short = uncovered(graph, scope, source_type@, edge_type@, target_type@, min_per_source as nat);
            let sources = count_of(graph, scope, source_type@);
            &&& gap.description@ == missing_edges_text(
                short.len(),
                sources,
                source_type@,
                min_per_source as nat,
                edge_type@,
                target_type@,
            )
            &&& gap.fulfillment == Number::part(short.len(), sources).rest()
            &&& ascending(texts(gap.affected_nodes@))
            &&& forall|t: Seq<char>| #[trigger] texts(gap.affected_nodes@).contains(t) <==> short.contains(t)
        },
        CoverageExpectation::TypeRatio { numerator_type, denominator_type, min_ratio } => {
            let ratio = ratio_of(graph, scope, numerator_type@, denominator_type@);
            &&& gap.description@ == low_ratio_text(
                    numerator_type@,
                    denominator_type@,
                    ratio,
                    min_ratio,
                    count_of(graph, scope, numerator_type@),
                    count_of(graph, scope, denominator_type@),
                )
            &&& gap.fulfillment == ratio.ratio(min_ratio).lesser(Number { bits: ONE })
            &&& gap.affected_nodes@.len() == 0
        },
    }
}

/// The gaps are those of the expectations that are not met, in order.
pub open spec fn are_gaps(
    gaps: Seq<CoverageGap>,
    expectations: Seq<CoverageExpectation>,
    graph: GraphModel,
    scope: Option<Seq<char>>,
) -> bool {
    &&& forall|i: int|
        0 <= i < gaps.len() ==> {
            let k = (#[trigger] gaps[i]).expectation_index as int;
            0 <= k < expectations.len() && unmet(expectations[k], graph, scope) && is_gap(
                gaps[i],
                k,
                expectations[k],
                graph,
                scope,
            )
        }
    &&& forall|i: int, j: int|
        0 <= i < j < gaps.len() ==> (#[trigger] gaps[i]).expectation_index < (#[trigger] gaps[j]).expectation_index
    &&& forall|k: int|
        0 <= k < expectations.len() && unmet(#[trigger] expectations[k], graph, scope) ==> has_gap_at(gaps, k)
}

/// Whether one of the gaps is for the expectation at that place.
pub open spec fn has_gap_at(gaps: Seq<CoverageGap>, k: int) -> bool {
    exists|i: int| 0 <= i < gaps.len() && (#[trigger] gaps[i]).expectation_index == k
}

/// How far the gaps are filled, in all.
pub open spec fn filled(gaps: Seq<CoverageGap>) -> Number
    decreases gaps.len(),
{
    if gaps.len() == 0 {
        Number { bits: 0 }
    } else {
        filled(gaps.drop_last()).sum(gaps.last().fulfillment)
    }
}

/// The score: what is met counts in full, a gap as far as it is filled.
pub open spec fn score_of(met: nat, gaps: Seq<CoverageGap>) -> Number {
    if met + gaps.len() == 0 {
        Number { bits: ONE }
    } else {
        Number::nearest(met).sum(filled(gaps)).ratio(Number::nearest(met + gaps.len()))
    }
}

fn rate(met: usize, gaps: &Vec<CoverageGap>) -> (r: Number)
    requires
        met + gaps@.len() <= usize::MAX,
    ensures
        r == score_of(met as nat, gaps@),
{
    let total: usize = met + gaps.len();
    if total == 0 {
        return Number::from_bits(ONE);
    }
    let mut sum = Number::from_bits(0);
    let mut i: usize = 0;
    assert(gaps@.take(0) =~= Seq::<CoverageGap>::empty());
    while i < gaps.len()
        invariant
            i <= gaps@.len(),
            sum == filled(gaps@.take(i as int)),
        decreases gaps@.len() - i,
    {
        proof {
            assert(gaps@.take(i + 1).drop_last() =~= gaps@.take(i as int));
        }
        sum = sum.plus(gaps[i].fulfillment);
        i += 1;
    }
    assert(gaps@.take(gaps@.len() as int) =~= gaps@);
    Number::from_nat(met as u64).plus(sum).over(Number::from_nat(total as u64))
}

/// The report is the evaluation of the model.
pub open spec fn is_coverage_report(
    report: CoverageReport,
    model: CoverageModel,
    graph: GraphModel,
    now: Timestamp,
) -> bool {
    &&& report.model_name@ == model.name@
    &&& report.total_expectations == model.expectations@.len()
    &&& report.met == model.expectations@.len() - report.gaps@.len()
    &&& report.score == score_of(report.met as nat, report.gaps@)
    &&& are_gaps(report.gaps@, model.expectations@, graph, opt_chars(model.scope_node_type))
    &&& report.evaluated_at == now
}

/// Evaluates coverage models. What is complete, the models say.
pub struct CoverageEngine {
    pub models: Vec<CoverageModel>,
}

impl Default for CoverageEngine {
    fn default() -> (r: Self)
        ensures
            r.models@.len() == 0,
    {
        CoverageEngine::new()
    }
}

fn count_covering(graph: &Projection, node: &NodeId, edge_type: &str, target_type: &str) -> (r: usize)
    requires
        graph.inv(),
    ensures
        r == covering_edges(graph@, node@, edge_type@, target_type@).len(),
{
    let edges = graph.outgoing_edges_of_type(node, edge_type);
    let ghost wanted = graph@.edges_from(node@).intersect(graph@.edges_of_type(edge_type@));
    let ghost ids = choose|ids: Seq<Seq<char>>| #[trigger] lists_in_order(views(edges@), graph@.edges, wanted, ids);
    let mut count: usize = 0;
    let mut i: usize = 0;
    let ghost mut seen: Set<Seq<char>> = Set::empty();
    let ghost all = covering_edges(graph@, node@, edge_type@, target_type@);
    while i < edges.len()
        invariant
            graph.inv(),
            i <= edges@.len(),
            lists_in_order(views(edges@), graph@.edges, wanted, ids),
            wanted == graph@.edges_from(node@).intersect(graph@.edges_of_type(edge_type@)),
            all == covering_edges(graph@, node@, edge_type@, target_type@),
            count <= i,
            seen.finite(),
            count == seen.len(),
            forall|t: Seq<char>| #[trigger]
                seen.contains(t) <==> exists|k: int| 0 <= k < i && #[trigger] ids[k] == t && all.contains(t),
        decreases edges@.len() - i,
    {
        let ghost t = ids[i as int];
        let ghost before = seen;
        proof {
            assert(views(edges@)[i as int] == graph@.edges[t]);
            assert(ids.contains(t));
            assert(wanted.contains(t));
        }
        let hit = match graph.node(&edges[i].target) {
            Some(target) => target.alive && str_same(target.type_id.as_str(), target_type),
            None => false,
        };
        assert(hit == all.contains(t));
        if hit {
            count += 1;
            proof {
                if seen.contains(t) {
                    let k = choose|k: int| 0 <= k < i && #[trigger] ids[k] == t && all.contains(t);
                    assert(text_less(ids[k], ids[i as int]));
                    text_less_irreflexive(t);
                }
                seen = seen.insert(t);
            }
        }
        proof {
            assert forall|u: Seq<char>| #[trigger] seen.contains(u) <==> exists|k: int|
                0 <= k < i + 1 && #[trigger] ids[k] == u && all.contains(u) by {
                if before.contains(u) {
                    let k = choose|k: int| 0 <= k < i && #[trigger] ids[k] == u && all.contains(u);
                    assert(ids[k] == u);
                }
                if seen.contains(u) && !before.contains(u) {
                    assert(ids[i as int] == u);
                }
            }
        }
        i += 1;
    }
    proof {
        assert forall|t: Seq<char>| #[trigger] seen.contains(t) <==> all.contains(t) by {
            if all.contains(t) {
                assert(wanted.contains(t));
                assert(ids.contains(t));
                assert(ids[ids.index_of(t)] == t);
            }
        }
        assert(seen =~= all);
    }
    count
}

fn is_in_scope(scope: &Option<String>, type_id: &str) -> (r: bool)
    ensures
        r == in_scope(opt_chars(*scope), type_id@),
{
    match scope {
        Some(wanted) => str_same(wanted.as_str(), type_id),
        None => true,
    }
}

fn count_in_scope(graph: &Projection, scope: &Option<String>, type_id: &str) -> (r: usize)
    requires
        graph.inv(),
    ensures
        r == count_of(graph@, opt_chars(*scope), type_id@),
{
    if is_in_scope(scope, type_id) {
        graph.count_nodes_by_type(type_id)
    } else {
        0
    }
}

impl CoverageEngine {
    /// An engine without models.
    pub fn new() -> (r: Self)
        ensures
            r.models@.len() == 0,
    {
        CoverageEngine { models: Vec::new() }
    }

    /// Adds a model.
    pub fn add_model(&mut self, model: CoverageModel)
        ensures
            final(self).models@ == old(self).models@.push(model),
    {
        self.models.push(model);
    }

    /// The number of models.
    pub fn model_count(&self) -> (r: usize)
        ensures
            r == self.models@.len(),
    {
        self.models.len()
    }

    fn check_node_count(
        &self,
        index: usize,
        node_type: &String,
        min_count: usize,
        graph: &Projection,
        scope: &Option<String>,
    ) -> (r: Option<CoverageGap>)
        requires
            graph.inv(),
        ensures
            ({
                let actual = count_of(graph@, opt_chars(*scope), node_type@);
                match r {
                    Some(gap) => {
                        &&& actual < min_count
                        &&& gap.expectation_index == index
                        &&& gap.description@ == missing_nodes_text(min_count as nat, node_type@, actual)
                        &&& gap.fulfillment == Number::part(actual, min_count as nat)
                        &&& gap.affected_nodes@.len() == 0
                    },
                    None => actual >= min_count,
                }
            }),
    {
        let actual = count_in_scope(graph, scope, node_type.as_str());
        if actual >= min_count {
            return None;
        }
        let mut description = "Expected at least ".to_owned();
        description.append(decimal(min_count as u64).as_str());
        description.append(" '");
        description.append(node_type.as_str());
        description.append("' nodes, found ");
        description.append(decimal(actual as u64).as_str());
        Some(
            CoverageGap {
                expectation_index: index,
                description,
                fulfillment: Number::quotient(actual as u64, min_count as u64),
                affected_nodes: Vec::new(),
            },
        )
    }

    fn find_uncovered(
        &self,
        source_type: &String,
        edge_type: &String,
        target_type: &String,
        min_per_source: usize,
        graph: &Projection,
        scope: &Option<String>,
    ) -> (r: (Vec<NodeId>, usize))
        requires
            graph.inv(),
        ensures
            ascending(texts(r.0@)),
            forall|t: Seq<char>| #[trigger]
                texts(r.0@).contains(t) <==> uncovered(
                    graph@,
                    opt_chars(*scope),
                    source_type@,
                    edge_type@,
                    target_type@,
                    min_per_source as nat,
                ).contains(t),
            r.0@.len() == uncovered(graph@, opt_chars(*scope), source_type@, edge_type@, target_type@, min_per_source as nat).len(),
            r.0@.len() <= r.1,
            r.1 == count_of(graph@, opt_chars(*scope), source_type@),
    {
        if !is_in_scope(scope, source_type.as_str()) {
            let none: Vec<NodeId> = Vec::new();
            proof {
                let short = uncovered(graph@, opt_chars(*scope), source_type@, edge_type@, target_type@, min_per_source as nat);
                assert(short =~= Set::<Seq<char>>::empty());
                assert(texts(none@) =~= Seq::<Seq<char>>::empty());
            }
            return (none, 0);
        }
        let sources = graph.nodes_by_type(source_type.as_str());
        let ghost wanted = graph@.nodes_of_type(source_type@);
        let ghost ids = choose|ids: Seq<Seq<char>>| #[trigger] lists_in_order(views(sources@), graph@.nodes, wanted, ids);
        let ghost short = uncovered(graph@, opt_chars(*scope), source_type@, edge_type@, target_type@, min_per_source as nat);
        let mut violators: Vec<NodeId> = Vec::new();
        let mut i: usize = 0;
        assert(texts(violators@) =~= Seq::<Seq<char>>::empty());
        while i < sources.len()
            invariant
                graph.inv(),
                i <= sources@.len(),
                wanted == graph@.nodes_of_type(source_type@),
                in_scope(opt_chars(*scope), source_type@),
                lists_in_order(views(sources@), graph@.nodes, wanted, ids),
                short == uncovered(graph@, opt_chars(*scope), source_type@, edge_type@, target_type@, min_per_source as nat),
                violators@.len() <= i,
                ascending(texts(violators@)),
                forall|j: int| 0 <= j < violators@.len() ==> exists|k: int| 0 <= k < i && ids[k] == (#[trigger] violators@[j])@,
                forall|t: Seq<char>| #[trigger]
                    texts(violators@).contains(t) <==> exists|k: int| 0 <= k < i && #[trigger] ids[k] == t && short.contains(t),
            decreases sources@.len() - i,
        {
            let ghost t = ids[i as int];
            let ghost before = violators@;
            proof {
                assert(views(sources@)[i as int] == graph@.nodes[t]);
                assert(ids.contains(t));
                assert(wanted.contains(t));
                assert(graph@.nodes.contains_key(t));
                assert(sources@[i as int].id@ == t);
            }
            let found = count_covering(graph, &sources[i].id, edge_type.as_str(), target_type.as_str());
            if found < min_per_source {
                violators.push(sources[i].id.clone());
                proof {
                    let now = texts(violators@);
                    assert(now =~= texts(before).push(t));
                    assert forall|a: int, b: int| 0 <= a < b < now.len() implies text_less(#[trigger] now[a], #[trigger] now[b]) by {
                        if b == before.len() {
                            let k = choose|k: int| 0 <= k < i && ids[k] == (#[trigger] before[a])@;
                            assert(text_less(ids[k], ids[i as int]));
                            assert(now[a] == before[a]@);
                        } else {
                            assert(now[a] == texts(before)[a] && now[b] == texts(before)[b]);
                        }
                    }
                    assert forall|j: int| 0 <= j < violators@.len() implies exists|k: int| 0 <= k < i + 1 && ids[k]
                        == (#[trigger] violators@[j])@ by {
                        if j < before.len() {
                            assert(violators@[j] == before[j]);
                            let k = choose|k: int| 0 <= k < i && ids[k] == (#[trigger] before[j])@;
                            assert(ids[k] == violators@[j]@);
                        } else {
                            assert(ids[i as int] == violators@[j]@);
                        }
                    }
                }
            }
            proof {
                assert forall|u: Seq<char>| #[trigger] texts(violators@).contains(u) <==> exists|k: int|
                    0 <= k < i + 1 && #[trigger] ids[k] == u && short.contains(u) by {
                    if texts(before).contains(u) {
                        let k = choose|k: int| 0 <= k < i && #[trigger] ids[k] == u && short.contains(u);
                        assert(ids[k] == u);
                        assert(texts(violators@)[texts(before).index_of(u)] == u);
                    }
                    if u == t && short.contains(t) {
                        assert(texts(violators@)[before.len() as int] == t);
                    }
                    if texts(violators@).contains(u) && !texts(before).contains(u) {
                        let x = texts(violators@).index_of(u);
                        if x < before.len() {
                            assert(texts(before)[x] == u);
                        }
                        assert(ids[i as int] == u);
                    }
                    if exists|k: int| 0 <= k < i + 1 && #[trigger] ids[k] == u && short.contains(u) {
                        let k = choose|k: int| 0 <= k < i + 1 && #[trigger] ids[k] == u && short.contains(u);
                        if k < i {
                            assert(texts(before).contains(u));
                        }
                    }
                }
            }
            i += 1;
        }
        proof {
            lemma_listed_count(views(sources@), graph@.nodes, wanted);
            let now = texts(violators@);
            assert forall|t: Seq<char>| #[trigger] now.contains(t) <==> short.contains(t) by {
                if short.contains(t) {
                    assert(wanted.contains(t));
                    assert(ids.contains(t));
                    assert(ids[ids.index_of(t)] == t);
                }
            }
            assert forall|a: int, b: int| 0 <= a < b < now.len() implies now[a] != now[b] by {
                assert(text_less(now[a], now[b]));
                text_less_irreflexive(now[a]);
            }
            now.unique_seq_to_set();
            assert(now.to_set() =~= short);
        }
        (violators, sources.len())
    }

    fn check_edges(
        &self,
        index: usize,
        source_type: &String,
        edge_type: &String,
        target_type: &String,
        min_per_source: usize,
        graph: &Projection,
        scope: &Option<String>,
    ) -> (r: Option<CoverageGap>)
        requires
            graph.inv(),
        ensures
            ({
                let short = uncovered(graph@, opt_chars(*scope), source_type@, edge_type@, target_type@, min_per_source as nat);
                let sources = count_of(graph@, opt_chars(*scope), source_type@);
                match r {
                    Some(gap) => {
                        &&& short.len() > 0
                        &&& gap.expectation_index == index
                        &&& gap.description@ == missing_edges_text(
                            short.len(),
                            sources,
                            source_type@,
                            min_per_source as nat,
                            edge_type@,
                            target_type@,
                        )
                        &&& gap.fulfillment == Number::part(short.len(), sources).rest()
                        &&& ascending(texts(gap.affected_nodes@))
                        &&& forall|t: Seq<char>| #[trigger]
                            texts(gap.affected_nodes@).contains(t) <==> short.contains(t)
                    },
                    None => short.len() == 0,
                }
            }),
    {
        let (violators, sources) = self.find_uncovered(source_type, edge_type, target_type, min_per_source, graph, scope);
        if violators.len() == 0 {
            return None;
        }
        let mut description = decimal(violators.len() as u64);
        description.append("/");
        description.append(decimal(sources as u64).as_str());
        description.append(" '");
        description.append(source_type.as_str());
        description.append("' nodes lack the required ");
        description.append(decimal(min_per_source as u64).as_str());
        description.append(" '");
        description.append(edge_type.as_str());
        description.append("' edges to '");
        description.append(target_type.as_str());
        description.append("' nodes");
        let lacking = Number::quotient(violators.len() as u64, sources as u64);
        Some(
            CoverageGap {
                expectation_index: index,
                description,
                fulfillment: Number::from_bits(ONE).minus(lacking),
                affected_nodes: violators,
            },
        )
    }

    fn check_ratio(
        &self,
        index: usize,
        numerator_type: &String,
        denominator_type: &String,
        min_ratio: Number,
        graph: &Projection,
        scope: &Option<String>,
    ) -> (r: Option<CoverageGap>)
        requires
            graph.inv(),
        ensures
            ({
                let ratio = ratio_of(graph@, opt_chars(*scope), numerator_type@, denominator_type@);
                let low = count_of(graph@, opt_chars(*scope), denominator_type@) > 0 && !(min_ratio.below(ratio) || min_ratio.equal(ratio));
                match r {
                    Some(gap) => {
                        &&& low
                        &&& gap.expectation_index == index
                        &&& gap.description@ == low_ratio_text(
                                numerator_type@,
                                denominator_type@,
                                ratio,
                                min_ratio,
                                count_of(graph@, opt_chars(*scope), numerator_type@),
                                count_of(graph@, opt_chars(*scope), denominator_type@),
                            )
                        &&& gap.fulfillment == ratio.ratio(min_ratio).lesser(Number { bits: ONE })
                        &&& gap.affected_nodes@.len() == 0
                    },
                    None => !low,
                }
            }),
    {
        let num = count_in_scope(graph, scope, numerator_type.as_str());
        let den = count_in_scope(graph, scope, denominator_type.as_str());
        if den == 0 {
            return None;
        }
        let ratio = Number::quotient(num as u64, den as u64);
        if min_ratio.le(ratio) {
            return None;
        }
        let mut description = "Ratio of '".to_owned();
        description.append(numerator_type.as_str());
        description.append("' to '");
        description.append(denominator_type.as_str());
        description.append("' is ");
        description.append(fixed(ratio, 2).as_str());
        description.append(" (expected >= ");
        description.append(fixed(min_ratio, 2).as_str());
        description.append("). Have ");
        description.append(decimal(num as u64).as_str());
        description.append(" '");
        description.append(numerator_type.as_str());
        description.append("' for ");
        description.append(decimal(den as u64).as_str());
        description.append(" '");
        description.append(denominator_type.as_str());
        description.append("'.");
        Some(
            CoverageGap {
                expectation_index: index,
                description,
                fulfillment: ratio.over(min_ratio).at_most(Number::from_bits(ONE)),
                affected_nodes: Vec::new(),
            },
        )
    }

    /// Checks one expectation on the nodes in the scope; gives the gap where it is not met.
    pub fn check_expectation(
        &self,
        index: usize,
        expectation: &CoverageExpectation,
        graph: &Projection,
        scope: &Option<String>,
    ) -> (r: Option<CoverageGap>)
        requires
            graph.inv(),
        ensures
            match r {
                Some(gap) => unmet(*expectation, graph@, opt_chars(*scope)) && is_gap(
                    gap,
                    index as int,
                    *expectation,
                    graph@,
                    opt_chars(*scope),
                ),
                None => !unmet(*expectation, graph@, opt_chars(*scope)),
            },
    {
        match expectation {
            CoverageExpectation::MinNodeCount { node_type, min_count } => self.check_node_count(
                index,
                node_type,
                *min_count,
                graph,
                scope,
            ),
            CoverageExpectation::EdgeCoverage { source_type, edge_type, target_type, min_per_source } => self.check_edges(
                index,
                source_type,
                edge_type,
                target_type,
                *min_per_source,
                graph,
                scope,
            ),
            CoverageExpectation::TypeRatio { numerator_type, denominator_type, min_ratio } => self.check_ratio(
                index,
                numerator_type,
                denominator_type,
                *min_ratio,
                graph,
                scope,
            ),
        }
    }

    /// Evaluates a model on the nodes in its scope.
    pub fn evaluate(
        &self,
        model: &CoverageModel,
        graph: &Projection,
        now: Timestamp,
    ) -> (r: CoverageReport)
        requires
            graph.inv(),
        ensures
            is_coverage_report(r, *model, graph@, now),
    {
        let ghost expectations = model.expectations@;
        let ghost scope = opt_chars(model.scope_node_type);
        let mut gaps: Vec<CoverageGap> = Vec::new();
        let mut i: usize = 0;
        while i < model.expectations.len()
            invariant
                graph.inv(),
                i <= model.expectations@.len(),
                expectations == model.expectations@,
                scope == opt_chars(model.scope_node_type),
                gaps@.len() <= i,
                forall|j: int|
                    0 <= j < gaps@.len() ==> {
                        let k = (#[trigger] gaps@[j]).expectation_index as int;
                        0 <= k < i && unmet(expectations[k], graph@, scope) && is_gap(
                            gaps@[j],
                            k,
                            expectations[k],
                            graph@,
                            scope,
                        )
                    },
                forall|a: int, b: int|
                    0 <= a < b < gaps@.len() ==> (#[trigger] gaps@[a]).expectation_index < (
                    #[trigger] gaps@[b]).expectation_index,
                forall|k: int| 0 <= k < i && unmet(#[trigger] expectations[k], graph@, scope) ==> has_gap_at(gaps@, k),
            decreases model.expectations@.len() - i,
        {
            let ghost before = gaps@;
            let found = self.check_expectation(i, &model.expectations[i], graph, &model.scope_node_type);
            if let Some(gap) = found {
                gaps.push(gap);
                proof {
                    assert(gaps@[before.len() as int].expectation_index == i);
                    assert forall|k: int| 0 <= k < i + 1 && unmet(#[trigger] expectations[k], graph@, scope) implies has_gap_at(
                        gaps@,
                        k,
                    ) by {
                        if k < i {
                            assert(has_gap_at(before, k));
                            let j = choose|j: int| 0 <= j < before.len() && (#[trigger] before[j]).expectation_index == k;
                            assert(gaps@[j].expectation_index == k);
                        }
                    }
                    assert forall|j: int| 0 <= j < gaps@.len() implies ({
                        let k = (#[trigger] gaps@[j]).expectation_index as int;
                        0 <= k < i + 1 && unmet(expectations[k], graph@, scope) && is_gap(
                            gaps@[j],
                            k,
                            expectations[k],
                            graph@,
                            scope,
                        )
                    }) by {
                        if j < before.len() {
                            assert(gaps@[j] == before[j]);
                        }
                    }
                    assert forall|a: int, b: int| 0 <= a < b < gaps@.len() implies (#[trigger] gaps@[a]).expectation_index
                        < (#[trigger] gaps@[b]).expectation_index by {
                        assert(gaps@[a] == before[a]);
                        if b < before.len() {
                            assert(gaps@[b] == before[b]);
                        }
                    }
                }
            }
            i += 1;
        }
        let total: usize = model.expectations.len();
        let met: usize = total - gaps.len();
        let score = rate(met, &gaps);
        CoverageReport {
            model_name: model.name.clone(),
            score,
            total_expectations: total,
            met,
            gaps,
            evaluated_at: now,
        }
    }

    /// Evaluates all models, in order.
    pub fn evaluate_all(&self, graph: &Projection, now: Timestamp) -> (r: Vec<
        CoverageReport,
    >)
        requires
            graph.inv(),
        ensures
            r@.len() == self.models@.len(),
            forall|i: int|
                0 <= i < r@.len() ==> is_coverage_report(#[trigger] r@[i], self.models@[i], graph@, now),
    {
        let mut r: Vec<CoverageReport> = Vec::new();
        let mut i: usize = 0;
        while i < self.models.len()
            invariant
                graph.inv(),
                i <= self.models@.len(),
                r@.len() == i,
                forall|j: int|
                    0 <= j < i ==> is_coverage_report(#[trigger] r@[j], self.models@[j], graph@, now),
            decreases self.models@.len() - i,
        {
            let report = self.evaluate(&self.models[i], graph, now);
            r.push(report);
            i += 1;
        }
        r
    }
}

/// A report is complete exactly where every expectation of its model is met.
pub proof fn law_complete_means_all_met(
    report: CoverageReport,
    model: CoverageModel,
    graph: GraphModel,
    now: Timestamp,
)
    requires
        is_coverage_report(report, model, graph, now),
    ensures
        report.gaps@.len() == 0 <==> forall|k: int|
            0 <= k < model.expectations@.len() ==> !unmet(#[trigger] model.expectations@[k], graph, opt_chars(model.scope_node_type)),
        report.met + report.gaps@.len() == report.total_expectations,
{
    if report.gaps@.len() == 0 {
        assert forall|k: int| 0 <= k < model.expectations@.len() implies !unmet(#[trigger] model.expectations@[k], graph, opt_chars(model.scope_node_type)) by {
            if unmet(model.expectations@[k], graph, opt_chars(model.scope_node_type)) {
                assert(has_gap_at(report.gaps@, k));
            }
        }
    } else {
        let k = report.gaps@[0].expectation_index as int;
        assert(unmet(model.expectations@[k], graph, opt_chars(model.scope_node_type)));
    }
}

/// A report without gaps has the full score.
pub proof fn law_no_gaps_full_score(met: u64)
    ensures
        score_of(met as nat, Seq::<CoverageGap>::empty()) == (Number { bits: ONE }),
{
    if met > 0 {
        law_whole_numbers_keep_their_worth(met);
    }
}

proof fn gaps_are_filled_in_part(
    gap: CoverageGap,
    index: int,
    expectation: CoverageExpectation,
    graph: GraphModel,
    scope: Option<Seq<char>>,
)
    requires
        is_gap(gap, index, expectation, graph, scope),
        unmet(expectation, graph, scope),
        graph.nodes.dom().finite(),
        graph.nodes.len() <= usize::MAX,
    ensures
        gap.fulfillment.bits <= ONE,
{
    match expectation {
        CoverageExpectation::MinNodeCount { node_type, min_count } => {
            law_parts_are_at_most_one(count_of(graph, scope, node_type@) as u64, min_count as u64);
        },
        CoverageExpectation::EdgeCoverage { source_type, edge_type, target_type, min_per_source } => {
            let short = uncovered(graph, scope, source_type@, edge_type@, target_type@, min_per_source as nat);
            let sources = scoped_nodes(graph, scope, source_type@);
            vstd::set_lib::lemma_len_subset(sources, graph.nodes.dom());
            vstd::set_lib::lemma_len_subset(short, sources);
            law_parts_are_at_most_one(short.len() as u64, sources.len() as u64);
            law_rests_are_at_most_one(Number::part(short.len(), sources.len()));
        },
        CoverageExpectation::TypeRatio { numerator_type, denominator_type, min_ratio } => {
            let num = scoped_nodes(graph, scope, numerator_type@);
            let den = scoped_nodes(graph, scope, denominator_type@);
            vstd::set_lib::lemma_len_subset(num, graph.nodes.dom());
            vstd::set_lib::lemma_len_subset(den, graph.nodes.dom());
            let ratio = Number::part(num.len(), den.len());
            if !min_ratio.nan() {
                law_parts_are_finite(num.len() as u64, den.len() as u64);
                law_quotients_keep_the_sign(ratio, min_ratio);
            }
        },
    }
}

proof fn filled_at_most(gaps: Seq<CoverageGap>)
    requires
        forall|i: int| 0 <= i < gaps.len() ==> (#[trigger] gaps[i]).fulfillment.bits <= ONE,
        gaps.len() < 0x0020_0000_0000_0000,
    ensures
        filled(gaps).bits <= Number::nearest(gaps.len()).bits,
    decreases gaps.len(),
{
    if gaps.len() > 0 {
        let rest = gaps.drop_last();
        assert forall|i: int| 0 <= i < rest.len() implies (#[trigger] rest[i]).fulfillment.bits <= ONE by {
            assert(rest[i] == gaps[i]);
        }
        filled_at_most(rest);
        assert(gaps[gaps.len() - 1].fulfillment.bits <= ONE);
        law_one_is_one();
        law_sums_keep_bounds(filled(rest), gaps.last().fulfillment, rest.len() as u64, 1);
    }
}

/// A score lies between zero and one. A model holds fewer expectations than the numbers can
/// count exactly.
pub proof fn law_scores_lie_between_zero_and_one(
    report: CoverageReport,
    model: CoverageModel,
    graph: GraphModel,
    now: Timestamp,
)
    requires
        is_coverage_report(report, model, graph, now),
        graph.nodes.dom().finite(),
        graph.nodes.len() <= usize::MAX,
        model.expectations@.len() < 0x0020_0000_0000_0000,
    ensures
        report.score.bits <= ONE,
{
    let gaps = report.gaps@;
    assert forall|i: int| 0 <= i < gaps.len() implies (#[trigger] gaps[i]).fulfillment.bits <= ONE by {
        let k = gaps[i].expectation_index as int;
        gaps_are_filled_in_part(gaps[i], k, model.expectations@[k], graph, opt_chars(model.scope_node_type));
    }
    let total = (report.met + gaps.len()) as u64;
    if total > 0 {
        filled_at_most(gaps);
        let met = Number::nearest(report.met as nat);
        law_sums_keep_bounds(met, filled(gaps), report.met as u64, gaps.len() as u64);
        law_quotients_of_ordered_numbers(met.sum(filled(gaps)), total);
    }
}

/// Without source nodes in the scope edges are not missing, and without nodes to divide by a ratio is
/// not too low.
pub proof fn law_nothing_to_cover_is_no_gap(
    graph: GraphModel,
    scope: Option<Seq<char>>,
    source_type: String,
    edge_type: String,
    target_type: String,
    min_per_source: usize,
    numerator_type: String,
    min_ratio: Number,
)
    requires
        scoped_nodes(graph, scope, source_type@) == Set::<Seq<char>>::empty(),
    ensures
        !unmet(CoverageExpectation::EdgeCoverage { source_type, edge_type, target_type, min_per_source }, graph, scope),
        !unmet(
            CoverageExpectation::TypeRatio { numerator_type, denominator_type: source_type, min_ratio },
            graph,
            scope,
        ),
{
    let short = uncovered(graph, scope, source_type@, edge_type@, target_type@, min_per_source as nat);
    assert(short =~= Set::<Seq<char>>::empty());
}

/// Of what lies outside the scope no edges are missing.
pub proof fn law_nothing_is_asked_beyond_the_scope(
    graph: GraphModel,
    scope: Seq<char>,
    source_type: String,
    edge_type: String,
    target_type: String,
    min_per_source: usize,
)
    requires
        source_type@ != scope,
    ensures
        !unmet(CoverageExpectation::EdgeCoverage { source_type, edge_type, target_type, min_per_source }, graph, Some(scope)),
{
    law_nothing_to_cover_is_no_gap(
        graph,
        Some(scope),
        source_type,
        edge_type,
        target_type,
        min_per_source,
        source_type,
        Number { bits: 0 },
    );
}

} // verus!
