//! Laws of coverage: which expectations a graph meets.

use crate::arithmetic::law_whole_numbers_keep_their_worth;
use crate::coverage::{
    are_gaps, covering_edges, filled, has_gap_at, is_coverage_report, is_gap, scoped_nodes, score_of, uncovered, unmet,
    CoverageExpectation, CoverageGap, CoverageModel, CoverageReport,
};
use crate::ids::{ascending, texts};
use crate::number::{Number, ONE};
use crate::projection::GraphModel;
use crate::text::opt_chars;
use crate::time::Timestamp;
use vstd::prelude::*;

verus! {

/// A living node of the type, which the scope does not leave out.
pub open spec fn is_asked(graph: GraphModel, scope: Option<Seq<char>>, type_id: Seq<char>, node: Seq<char>) -> bool {
    &&& graph.nodes.contains_key(node)
    &&& graph.nodes[node].alive
    &&& graph.nodes[node].type_id == type_id
    &&& scope is Some ==> scope->0 == type_id
}

/// A living edge of the type from the node to a living node of the target type.
pub open spec fn covers(
    graph: GraphModel,
    edge: Seq<char>,
    node: Seq<char>,
    edge_type: Seq<char>,
    target_type: Seq<char>,
) -> bool {
    &&& graph.edges.contains_key(edge)
    &&& graph.edges[edge].alive
    &&& graph.edges[edge].source == node
    &&& graph.edges[edge].type_id == edge_type
    &&& graph.nodes.contains_key(graph.edges[edge].target)
    &&& graph.nodes[graph.edges[edge].target].alive
    &&& graph.nodes[graph.edges[edge].target].type_id == target_type
}

/// Too few nodes are there exactly where fewer living nodes of the type are asked than expected.
pub proof fn law_too_few_nodes_are_a_gap(
    graph: GraphModel,
    scope: Option<Seq<char>>,
    node_type: String,
    min_count: usize,
)
    ensures
        unmet(CoverageExpectation::MinNodeCount { node_type, min_count }, graph, scope) <==> Set::new(
            |t: Seq<char>| is_asked(graph, scope, node_type@, t),
        ).len() < min_count,
{
    assert(Set::new(|t: Seq<char>| is_asked(graph, scope, node_type@, t)) =~= scoped_nodes(graph, scope, node_type@));
}

/// Edges are missing exactly where a node that is asked has fewer edges of the type to living
/// nodes of the target type than expected.
pub proof fn law_missing_edges_are_a_gap(
    graph: GraphModel,
    scope: Option<Seq<char>>,
    source_type: String,
    edge_type: String,
    target_type: String,
    min_per_source: usize,
)
    requires
        graph.nodes.dom().finite(),
    ensures
        unmet(CoverageExpectation::EdgeCoverage { source_type, edge_type, target_type, min_per_source }, graph, scope)
            <==> exists|n: Seq<char>| #[trigger]
            is_asked(graph, scope, source_type@, n) && Set::new(
                |t: Seq<char>| covers(graph, t, n, edge_type@, target_type@),
            ).len() < min_per_source,
{
    let short = uncovered(graph, scope, source_type@, edge_type@, target_type@, min_per_source as nat);
    assert forall|n: Seq<char>| #[trigger] is_asked(graph, scope, source_type@, n) implies (short.contains(n) <==> Set::new(
        |t: Seq<char>| covers(graph, t, n, edge_type@, target_type@),
    ).len() < min_per_source) by {
        assert(Set::new(|t: Seq<char>| covers(graph, t, n, edge_type@, target_type@)) =~= covering_edges(
            graph,
            n,
            edge_type@,
            target_type@,
        ));
    }
    assert(short.subset_of(graph.nodes.dom()));
    vstd::set_lib::lemma_set_subset_finite(graph.nodes.dom(), short);
    if short.len() > 0 {
        let n = short.choose();
        assert(short.contains(n));
        assert(is_asked(graph, scope, source_type@, n));
    }
    if exists|n: Seq<char>| #[trigger]
        is_asked(graph, scope, source_type@, n) && Set::new(
            |t: Seq<char>| covers(graph, t, n, edge_type@, target_type@),
        ).len() < min_per_source {
        let n = choose|n: Seq<char>| #[trigger]
            is_asked(graph, scope, source_type@, n) && Set::new(
                |t: Seq<char>| covers(graph, t, n, edge_type@, target_type@),
            ).len() < min_per_source;
        assert(short.contains(n));
        assert(short.remove(n).len() + 1 == short.len());
    }
}

/// The nodes that a gap of missing edges names are those that are asked and have too few.
pub proof fn law_gaps_name_the_nodes_that_fall_short(
    gap: CoverageGap,
    index: int,
    graph: GraphModel,
    scope: Option<Seq<char>>,
    source_type: String,
    edge_type: String,
    target_type: String,
    min_per_source: usize,
    node: Seq<char>,
)
    requires
        is_gap(
            gap,
            index,
            CoverageExpectation::EdgeCoverage { source_type, edge_type, target_type, min_per_source },
            graph,
            scope,
        ),
    ensures
        gap.expectation_index == index,
        ascending(texts(gap.affected_nodes@)),
        texts(gap.affected_nodes@).contains(node) <==> is_asked(graph, scope, source_type@, node) && Set::new(
            |t: Seq<char>| covers(graph, t, node, edge_type@, target_type@),
        ).len() < min_per_source,
{
    assert(Set::new(|t: Seq<char>| covers(graph, t, node, edge_type@, target_type@)) =~= covering_edges(
        graph,
        node,
        edge_type@,
        target_type@,
    ));
    assert(texts(gap.affected_nodes@).contains(node) <==> uncovered(
        graph,
        scope,
        source_type@,
        edge_type@,
        target_type@,
        min_per_source as nat,
    ).contains(node));
}

/// Edges to nodes of another type do not help: without living nodes of the target type every
/// node that is asked falls short, where at least one edge is expected.
pub proof fn law_without_targets_every_source_falls_short(
    graph: GraphModel,
    scope: Option<Seq<char>>,
    source_type: String,
    edge_type: String,
    target_type: String,
    min_per_source: usize,
    node: Seq<char>,
)
    requires
        graph.nodes.dom().finite(),
        min_per_source >= 1,
        forall|t: Seq<char>| #[trigger]
            graph.nodes.contains_key(t) && graph.nodes[t].alive ==> graph.nodes[t].type_id != target_type@,
        is_asked(graph, scope, source_type@, node),
    ensures
        unmet(CoverageExpectation::EdgeCoverage { source_type, edge_type, target_type, min_per_source }, graph, scope),
        forall|gap: CoverageGap, index: int| #[trigger]
            is_gap(
                gap,
                index,
                CoverageExpectation::EdgeCoverage { source_type, edge_type, target_type, min_per_source },
                graph,
                scope,
            ) ==> texts(gap.affected_nodes@).contains(node),
{
    let set = Set::new(|t: Seq<char>| covers(graph, t, node, edge_type@, target_type@));
    assert(set =~= Set::<Seq<char>>::empty());
    law_missing_edges_are_a_gap(graph, scope, source_type, edge_type, target_type, min_per_source);
    assert forall|gap: CoverageGap, index: int| #[trigger]
        is_gap(
            gap,
            index,
            CoverageExpectation::EdgeCoverage { source_type, edge_type, target_type, min_per_source },
            graph,
            scope,
        ) implies texts(gap.affected_nodes@).contains(node) by {
        law_gaps_name_the_nodes_that_fall_short(
            gap,
            index,
            graph,
            scope,
            source_type,
            edge_type,
            target_type,
            min_per_source,
            node,
        );
    }
}

/// A ratio is held only against nodes to divide by. Where there are some, one that is not a
/// number is never met, zero always is, and a greater one is not met where a lower one is not.
pub proof fn law_ratios_are_held_against_what_is_there(
    graph: GraphModel,
    scope: Option<Seq<char>>,
    numerator_type: String,
    denominator_type: String,
    low: Number,
    high: Number,
)
    requires
        !low.nan() && !high.nan(),
        low.below(high) || low.equal(high),
        graph.nodes.dom().finite(),
        graph.nodes.len() <= usize::MAX,
    ensures
        Set::new(|t: Seq<char>| is_asked(graph, scope, denominator_type@, t)).len() == 0 ==> !unmet(
            CoverageExpectation::TypeRatio { numerator_type, denominator_type, min_ratio: low },
            graph,
            scope,
        ),
        unmet(CoverageExpectation::TypeRatio { numerator_type, denominator_type, min_ratio: low }, graph, scope)
            ==> unmet(
            CoverageExpectation::TypeRatio { numerator_type, denominator_type, min_ratio: high },
            graph,
            scope,
        ),
        ({
            let num = Set::new(|t: Seq<char>| is_asked(graph, scope, numerator_type@, t)).len();
            let den = Set::new(|t: Seq<char>| is_asked(graph, scope, denominator_type@, t)).len();
            let ratio = Number::part(num, den);
            den > 0 ==> (unmet(
                CoverageExpectation::TypeRatio { numerator_type, denominator_type, min_ratio: low },
                graph,
                scope,
            ) <==> ratio.below(low))
        }),
{
    assert(Set::new(|t: Seq<char>| is_asked(graph, scope, denominator_type@, t)) =~= scoped_nodes(
        graph,
        scope,
        denominator_type@,
    ));
    assert(Set::new(|t: Seq<char>| is_asked(graph, scope, numerator_type@, t)) =~= scoped_nodes(
        graph,
        scope,
        numerator_type@,
    ));
    let num = scoped_nodes(graph, scope, numerator_type@);
    let den = scoped_nodes(graph, scope, denominator_type@);
    vstd::set_lib::lemma_len_subset(num, graph.nodes.dom());
    vstd::set_lib::lemma_len_subset(den, graph.nodes.dom());
    if den.len() > 0 {
        crate::arithmetic::law_parts_are_finite(num.len() as u64, den.len() as u64);
    }
}

/// A gap is empty where nothing of what is expected is there: no node of the type, or no node
/// that has edges enough.
pub proof fn law_nothing_there_is_nothing_filled(
    gap: CoverageGap,
    index: int,
    expectation: CoverageExpectation,
    graph: GraphModel,
    scope: Option<Seq<char>>,
)
    requires
        is_gap(gap, index, expectation, graph, scope),
        unmet(expectation, graph, scope),
        graph.nodes.dom().finite(),
        graph.nodes.len() <= usize::MAX,
    ensures
        expectation matches CoverageExpectation::MinNodeCount { node_type, .. } ==> {
            (forall|t: Seq<char>| !#[trigger] is_asked(graph, scope, node_type@, t)) ==> gap.fulfillment.bits == 0
        },
        expectation matches CoverageExpectation::EdgeCoverage { source_type, edge_type, target_type, min_per_source }
            ==> {
            (forall|t: Seq<char>| #[trigger]
                is_asked(graph, scope, source_type@, t) ==> texts(gap.affected_nodes@).contains(t))
                ==> gap.fulfillment.bits == 0
        },
{
    match expectation {
        CoverageExpectation::MinNodeCount { node_type, min_count } => {
            if forall|t: Seq<char>| !#[trigger] is_asked(graph, scope, node_type@, t) {
                assert forall|t: Seq<char>| !#[trigger] scoped_nodes(graph, scope, node_type@).contains(t) by {
                    assert(!is_asked(graph, scope, node_type@, t));
                }
                assert(scoped_nodes(graph, scope, node_type@) =~= Set::<Seq<char>>::empty());
                law_no_part_of_anything_is_zero(min_count as u64);
            }
        },
        CoverageExpectation::EdgeCoverage { source_type, edge_type, target_type, min_per_source } => {
            let short = uncovered(graph, scope, source_type@, edge_type@, target_type@, min_per_source as nat);
            let sources = scoped_nodes(graph, scope, source_type@);
            if forall|t: Seq<char>| #[trigger]
                is_asked(graph, scope, source_type@, t) ==> texts(gap.affected_nodes@).contains(t) {
                assert forall|t: Seq<char>| #[trigger] sources.contains(t) <==> short.contains(t) by {
                    if sources.contains(t) {
                        assert(is_asked(graph, scope, source_type@, t));
                        assert(texts(gap.affected_nodes@).contains(t));
                    }
                }
                assert(short =~= sources);
                vstd::set_lib::lemma_len_subset(sources, graph.nodes.dom());
                law_whole_numbers_keep_their_worth(sources.len() as u64);
                law_nothing_is_left_of_one();
            }
        },
        _ => {},
    }
}

/// No part of anything is zero.
pub proof fn law_no_part_of_anything_is_zero(n: u64)
    requires
        n > 0,
    ensures
        Number::part(0, n as nat).bits == 0,
{
    crate::arithmetic::law_parts_are_at_most_one(0, n);
    crate::number::nearest_bounds(n as nat);
}

/// One taken from one leaves nothing.
pub proof fn law_nothing_is_left_of_one()
    ensures
        (Number { bits: ONE }).rest().bits == 0,
{
    let one = Number { bits: ONE };
    let minus = one.negated();
    assert(minus.magnitude() == one.magnitude());
    assert(one.scale() == minus.scale());
    assert(one.significand() == minus.significand());
    assert(crate::number::two_to(0) == 1);
    assert(one.signed_significand() * 1 + minus.signed_significand() * 1 == 0);
}

/// A report has one gap for each expectation that is not met, in the order of the expectations,
/// and counts the others as met.
pub proof fn law_reports_hold_a_gap_for_what_is_missing(
    report: CoverageReport,
    model: CoverageModel,
    graph: GraphModel,
    now: Timestamp,
    k: int,
)
    requires
        is_coverage_report(report, model, graph, now),
        0 <= k < model.expectations@.len(),
    ensures
        unmet(model.expectations@[k], graph, opt_chars(model.scope_node_type)) <==> exists|i: int|
            0 <= i < report.gaps@.len() && (#[trigger] report.gaps@[i]).expectation_index == k,
        forall|i: int, j: int|
            0 <= i < j < report.gaps@.len() ==> (#[trigger] report.gaps@[i]).expectation_index < (
            #[trigger] report.gaps@[j]).expectation_index,
        report.met + report.gaps@.len() == model.expectations@.len(),
        report.total_expectations == model.expectations@.len(),
        report.model_name@ == model.name@,
        report.evaluated_at == now,
{
    assert(are_gaps(report.gaps@, model.expectations@, graph, opt_chars(model.scope_node_type)));
    if unmet(model.expectations@[k], graph, opt_chars(model.scope_node_type)) {
        assert(has_gap_at(report.gaps@, k));
    }
}

/// The score is one where nothing is asked or all that is asked is met, and zero where nothing is
/// met and no gap is filled at all.
pub proof fn law_scores_go_from_nothing_to_one(met: u64, gaps: Seq<CoverageGap>)
    requires
        met + gaps.len() <= u64::MAX,
    ensures
        gaps.len() == 0 ==> score_of(met as nat, gaps).bits == ONE,
        met == 0 && gaps.len() > 0 && (forall|i: int|
            0 <= i < gaps.len() ==> (#[trigger] gaps[i]).fulfillment.bits == 0) ==> score_of(met as nat, gaps).bits == 0,
        met + gaps.len() > 0 ==> score_of(met as nat, gaps) == Number::nearest(met as nat).sum(filled(gaps)).ratio(
            Number::nearest((met + gaps.len()) as nat),
        ),
{
    if gaps.len() == 0 && met > 0 {
        crate::arithmetic::law_whole_numbers_keep_their_worth(met);
    }
    if met == 0 && gaps.len() > 0 && (forall|i: int|
        0 <= i < gaps.len() ==> (#[trigger] gaps[i]).fulfillment.bits == 0) {
        nothing_is_filled(gaps);
        nothing_and_nothing();
        crate::arithmetic::whole_fields(gaps.len() as u64);
        let total = Number::nearest(gaps.len());
        assert(Number::nearest(0).bits == 0);
        assert(total.magnitude() > 0) by {
            crate::number::nearest_bounds(gaps.len());
            crate::number::bit_length_bounds(gaps.len());
            let k = crate::number::bit_length(gaps.len()) as int;
            let l = crate::number::LEADING as int;
            assert((1022 + k) * l > 0) by (nonlinear_arith)
                requires
                    k > 0,
                    l > 0,
            ;
        }
    }
}

proof fn nothing_and_nothing()
    ensures
        (Number { bits: 0 }).sum(Number { bits: 0 }).bits == 0,
{
    let zero = Number { bits: 0 };
    assert(zero.significand() == 0);
    assert(crate::number::two_to(0) == 1);
    assert(0 * crate::number::two_to(0) + 0 * crate::number::two_to(0) == 0);
}

proof fn nothing_is_filled(gaps: Seq<CoverageGap>)
    requires
        forall|i: int| 0 <= i < gaps.len() ==> (#[trigger] gaps[i]).fulfillment.bits == 0,
    ensures
        filled(gaps).bits == 0,
    decreases gaps.len(),
{
    if gaps.len() > 0 {
        let fewer = gaps.drop_last();
        assert forall|i: int| 0 <= i < fewer.len() implies (#[trigger] fewer[i]).fulfillment.bits == 0 by {
            assert(gaps[i].fulfillment.bits == 0);
        }
        assert(gaps[gaps.len() - 1].fulfillment.bits == 0);
        nothing_is_filled(fewer);
        nothing_and_nothing();
    }
}

/// A gap of nodes is filled by the part that is there of those asked for; a gap in a ratio by the
/// part that the ratio is of the one asked for, but at most wholly.
pub proof fn law_gaps_are_filled_by_what_is_there(
    gap: CoverageGap,
    index: int,
    expectation: CoverageExpectation,
    graph: GraphModel,
    scope: Option<Seq<char>>,
)
    requires
        is_gap(gap, index, expectation, graph, scope),
    ensures
        gap.expectation_index == index,
        expectation matches CoverageExpectation::MinNodeCount { node_type, min_count } ==> gap.fulfillment
            == Number::part(
            Set::new(|t: Seq<char>| is_asked(graph, scope, node_type@, t)).len(),
            min_count as nat,
        ) && gap.affected_nodes@.len() == 0,
        expectation matches CoverageExpectation::TypeRatio { numerator_type, denominator_type, min_ratio } ==> ({
            let ratio = Number::part(
                Set::new(|t: Seq<char>| is_asked(graph, scope, numerator_type@, t)).len(),
                Set::new(|t: Seq<char>| is_asked(graph, scope, denominator_type@, t)).len(),
            );
            let part = ratio.ratio(min_ratio);
            &&& gap.affected_nodes@.len() == 0
            &&& part.below(Number { bits: ONE }) ==> gap.fulfillment == part
            &&& (Number { bits: ONE }).below(part) || part.nan() ==> gap.fulfillment.bits == ONE
        }),
{
    match expectation {
        CoverageExpectation::MinNodeCount { node_type, .. } => {
            assert(Set::new(|t: Seq<char>| is_asked(graph, scope, node_type@, t)) =~= scoped_nodes(
                graph,
                scope,
                node_type@,
            ));
        },
        CoverageExpectation::TypeRatio { numerator_type, denominator_type, .. } => {
            assert(Set::new(|t: Seq<char>| is_asked(graph, scope, numerator_type@, t)) =~= scoped_nodes(
                graph,
                scope,
                numerator_type@,
            ));
            assert(Set::new(|t: Seq<char>| is_asked(graph, scope, denominator_type@, t)) =~= scoped_nodes(
                graph,
                scope,
                denominator_type@,
            ));
        },
        _ => {},
    }
}

} // verus!
