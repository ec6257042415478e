//! Laws of the models: how levels follow from limits, what is learned, and what follows from a
//! prediction.

use crate::action::{ActionKindModel, ActionStatus, OutcomeKind};
use crate::action_store::ActionStoreModel;
use crate::epistemic::{ClaimKindModel, ClaimModel, ClaimStatus};
use crate::event::{EventKind, Stamp};
use crate::micromodel::MicroModelPredictionModel;
use crate::micromodels::action_failure_rate::{failure_level, failure_ratio, ActionFailureRateConfig, ActionFailureRateLevel};
use crate::micromodels::agent_loop_storm::{storm_level, AgentLoopStormConfig, AgentLoopStormLevel};
use crate::micromodels::commit_rate::{
    deviation, learned, rate_direction, rate_level, rate_of, CommitRateModel,
};
use crate::micromodels::reflex::{
    passes_gate, reflex_action, reflex_claim, reflex_evidence, MicroModelReflexParts, ReflexBridgeIds,
};
use crate::micromodels::replication_lag::{
    is_stale, lag_level, ReplicationLagAnomalyConfig, ReplicationLagAnomalyLevel,
};
use crate::number::{Number, INFINITE, LEADING, ONE, SIGN};
use crate::outcome_agent::is_outcome_reaction;
use crate::time::Timestamp;
use crate::value::ValueModel;
use vstd::prelude::*;

verus! {

/// How bad a count is that is held against two limits: two from the critical one on, one from
/// the warning one on, else zero.
pub open spec fn badness(count: int, warning: int, critical: int) -> int {
    if count >= critical {
        2
    } else if count >= warning {
        1
    } else {
        0
    }
}

/// The worse of two.
pub open spec fn worse(one: int, other: int) -> int {
    if one >= other {
        one
    } else {
        other
    }
}

/// A lag is as bad as it is by its limits; without a heartbeat it is critical. A heartbeat is
/// missed once more than the seconds allowed have gone by since the last one, or where there never
/// was one. The limits are put in order by raising the critical one.
pub proof fn law_lag_is_judged_by_its_limits(
    config: ReplicationLagAnomalyConfig,
    lag: u64,
    now: Timestamp,
    last: Timestamp,
)
    ensures
        match lag_level(config, lag, false) {
            ReplicationLagAnomalyLevel::Normal => 0int,
            ReplicationLagAnomalyLevel::Warning => 1,
            ReplicationLagAnomalyLevel::Critical => 2,
        } == badness(lag as int, config.warning_lag_commits as int, config.critical_lag_commits as int),
        lag_level(config, lag, true) is Critical,
        is_stale(config, now, None),
        is_stale(config, now, Some(last)) <==> (now.seconds - last.seconds) * 1_000_000_000 + now.nanos - last.nanos
            > config.stale_heartbeat_after_secs * 1_000_000_000,
        config.enforced().warning_lag_commits == config.warning_lag_commits,
        config.enforced().stale_heartbeat_after_secs == config.stale_heartbeat_after_secs,
        config.enforced().critical_lag_commits == worse(
            config.critical_lag_commits as int,
            config.warning_lag_commits as int,
        ),
{
}

/// A storm is as bad as the worst of its three counts.
pub proof fn law_storms_are_as_bad_as_their_worst_count(
    config: AgentLoopStormConfig,
    events: u64,
    actions: u64,
    top_events: u64,
)
    ensures
        match storm_level(config, events, actions, top_events) {
            AgentLoopStormLevel::Normal => 0int,
            AgentLoopStormLevel::Warning => 1,
            AgentLoopStormLevel::Critical => 2,
        } == worse(
            badness(events as int, config.warning_agent_events as int, config.critical_agent_events as int),
            worse(
                badness(actions as int, config.warning_actions_proposed as int, config.critical_actions_proposed as int),
                badness(top_events as int, config.same_actor_warning as int, config.same_actor_critical as int),
            ),
        ),
{
}

/// The number is not smaller than the limit, and both are numbers.
pub open spec fn at_least(x: Number, limit: Number) -> bool {
    !x.nan() && !limit.nan() && x.rank() >= limit.rank()
}

/// Failures are as bad as their count, or, once enough actions were seen, as their part of these
/// if that is worse.
pub proof fn law_failures_are_as_bad_as_count_or_part(config: ActionFailureRateConfig, seen: u64, failed: u64)
    ensures
        match failure_level(config, seen, failed) {
            ActionFailureRateLevel::Normal => 0int,
            ActionFailureRateLevel::Warning => 1,
            ActionFailureRateLevel::Critical => 2,
        } == worse(
            badness(failed as int, config.warning_failure_count as int, config.critical_failure_count as int),
            if seen < config.min_actions_for_ratio {
                0
            } else if at_least(failure_ratio(seen, failed), config.critical_failure_ratio) {
                2
            } else if at_least(failure_ratio(seen, failed), config.warning_failure_ratio) {
                1
            } else {
                0
            },
        ),
{
}

/// The part of failures is zero where there were no actions or no failures, one where all failed,
/// and not above one where no more failed than were seen.
pub proof fn law_the_part_of_failures(seen: u64, failed: u64)
    ensures
        seen == 0 || failed == 0 ==> failure_ratio(seen, failed).bits == 0,
        seen > 0 && failed == seen ==> failure_ratio(seen, failed).bits == ONE,
        failed <= seen ==> failure_ratio(seen, failed).bits <= ONE,
        seen > 0 ==> failure_ratio(seen, failed) == Number::nearest(failed as nat).ratio(Number::nearest(seen as nat)),
{
    if seen > 0 {
        if failed == 0 {
            crate::laws::coverage::law_no_part_of_anything_is_zero(seen);
        }
        if failed == seen {
            crate::arithmetic::law_whole_numbers_keep_their_worth(seen);
        }
        if failed <= seen {
            crate::arithmetic::law_parts_are_at_most_one(failed, seen);
        }
    }
}

/// A rate that is judged is as bad as its deviation, whichever way that goes; one that is not
/// judged is not bad. Only a bad rate has a direction: up where the deviation is positive, down
/// where it is negative.
pub proof fn law_rates_are_judged_both_ways(model: CommitRateModel, z: Number)
    ensures
        ({
            let level = rate_level(model, z);
            let size = Number { bits: (if z.bits >= SIGN { z.bits - SIGN } else { z.bits as int }) as u64 };
            let warm = model.state.samples_seen >= model.config.warmup_samples;
            let judged = warm && !at_least(model.config.min_expected_rate, model.state.ewma_rate);
            &&& level is WarmingUp <==> !warm
            &&& warm && !judged ==> level is Normal
            &&& judged && at_least(size, model.config.critical_z_score) ==> level is Critical
            &&& judged && !at_least(size, model.config.critical_z_score) && at_least(size, model.config.warning_z_score)
                ==> level is Warning
            &&& judged && !at_least(size, model.config.critical_z_score) && !at_least(size, model.config.warning_z_score)
                ==> level is Normal
            &&& rate_level(model, z.negated()) == level
            &&& level is Normal || level is WarmingUp ==> rate_direction(level, z) is Stable
            &&& !(level is Normal || level is WarmingUp) && 0 < z.bits <= INFINITE ==> rate_direction(level, z) is Spike
            &&& !(level is Normal || level is WarmingUp) && SIGN < z.bits <= SIGN + INFINITE ==> rate_direction(level, z)
                is Drop
        }),
{
    assert(z.negated().magnitude() == z.magnitude());
}

/// The first observation is taken for the expectation. Each one is counted and its time kept.
pub proof fn law_observations_are_learned(model: CommitRateModel, at: Timestamp, observed: Number)
    requires
        model.state.samples_seen < u64::MAX,
    ensures
        learned(model, at, observed).samples_seen == model.state.samples_seen + 1,
        learned(model, at, observed).last_observed_at == Some(at),
        model.state.samples_seen == 0 ==> learned(model, at, observed).ewma_rate == observed && learned(
            model,
            at,
            observed,
        ).ewma_variance == model.state.ewma_variance,
{
}

proof fn nothing_is_left(x: Number)
    requires
        x.finite(),
    ensures
        x.sum(x.negated()).bits == 0,
{
    let minus = x.negated();
    assert(minus.magnitude() == x.magnitude());
    assert(x.scale() == minus.scale());
    assert(x.significand() == minus.significand());
    assert(x.signed_significand() == -minus.signed_significand());
    assert(crate::number::two_to(0) == 1);
    assert(x.signed_significand() * 1 + minus.signed_significand() * 1 == 0);
}

proof fn whole_numbers_are_finite(n: u64)
    requires
        n > 0,
    ensures
        0 < Number::nearest(n as nat).bits < INFINITE,
        Number::nearest(n as nat).finite(),
{
    crate::number::nearest_bounds(n as nat);
    crate::number::short_length(n as nat);
    crate::number::bit_length_bounds(n as nat);
    let k = crate::number::bit_length(n as nat) as int;
    let l = crate::number::LEADING as int;
    assert((1023 + k) * l <= 1087 * l && (1022 + k) * l >= l) by (nonlinear_arith)
        requires
            0 < k <= 64,
            l > 0,
    ;
}

proof fn nothing_of_it(alpha: Number)
    requires
        alpha.bits < INFINITE,
    ensures
        alpha.product(Number { bits: 0 }).bits == 0,
{
    let zero = Number { bits: 0 };
    assert(zero.magnitude() == 0);
    assert(zero.exponent() == 0);
    assert(zero.significand() == 0);
    assert(alpha.significand() * zero.significand() == 0) by (nonlinear_arith)
        requires
            zero.significand() == 0,
    ;
    assert(crate::arithmetic::nearest_scaled(0, alpha.scale() + zero.scale()) == 0);
}

/// An observation that is just as expected leaves the expectation as it is.
pub proof fn law_what_is_expected_changes_nothing(model: CommitRateModel, at: Timestamp, n: u64)
    requires
        n > 0,
        model.state.samples_seen > 0,
        model.state.ewma_rate == Number::nearest(n as nat),
        model.config.alpha.bits < INFINITE,
    ensures
        learned(model, at, Number::nearest(n as nat)).ewma_rate == model.state.ewma_rate,
{
    let x = Number::nearest(n as nat);
    whole_numbers_are_finite(n);
    nothing_is_left(x);
    nothing_of_it(model.config.alpha);
    crate::arithmetic::law_whole_numbers_keep_their_worth(n);
    let delta = x.sum(x.negated());
    assert(delta == Number { bits: 0 });
    assert(model.config.alpha.product(delta) == Number { bits: 0 });
}

/// Small variances count as one.
pub proof fn law_small_variances_count_as_one(observed: Number, mean: Number, variance: Number)
    requires
        variance.below(Number { bits: ONE }),
    ensures
        deviation(observed, mean, variance) == deviation(observed, mean, Number { bits: ONE }),
{
}

/// No commits are a rate of zero, and so is any count in no time.
pub proof fn law_no_commits_are_no_rate(count: u64, window: u64)
    ensures
        rate_of(count as nat, 0).bits == 0,
        window > 0 ==> rate_of(0, window as nat).bits == 0,
{
    if window > 0 {
        let zero = Number::nearest(0);
        let sixty = Number { bits: crate::micromodels::commit_rate::SIXTY };
        assert(zero.bits == 0);
        assert(zero.significand() == 0);
        assert(zero.significand() * sixty.significand() == 0);
        assert(crate::arithmetic::nearest_scaled(0, zero.scale() + sixty.scale()) == 0);
        assert(zero.product(sixty).bits == 0);
        whole_numbers_are_finite(window);
    }
}

/// What follows from a prediction rests on it: the evidence is as reliable as the prediction is
/// confident and was caused by its event; the claim rests on this evidence, is only proposed, and
/// says what was found.
pub proof fn law_claims_rest_on_their_prediction(
    prediction: MicroModelPredictionModel,
    event: Seq<char>,
    parts: MicroModelReflexParts,
    actor: Seq<char>,
    evidence: Seq<char>,
    id: Seq<char>,
)
    ensures
        ({
            let basis = reflex_evidence(prediction, event, parts, evidence);
            let claim = reflex_claim(prediction, event, parts, actor, evidence, id);
            &&& basis.id == evidence && basis.reliability == prediction.confidence && basis.caused_by == Some(event)
            &&& basis.observed_at == prediction.created_at && basis.recorded_at == prediction.created_at
            &&& basis.payload.data == parts.evidence_payload_data@
            &&& claim.id == id && claim.status == ClaimStatus::Proposed && claim.kind == ClaimKindModel::AnomalyFinding
            &&& claim.evidence_for == seq![basis.id] && claim.evidence_against.len() == 0
            &&& claim.subject == parts.claim_subject@ && claim.predicate == parts.claim_predicate@
            &&& claim.object == parts.claim_object@ && claim.confidence == parts.confidence
            &&& claim.created_by == actor && claim.caused_by == Some(event) && claim.valid_until is None
            &&& claim.created_at == prediction.created_at && claim.updated_at == prediction.created_at
        }),
{
}

/// An action follows only from a claim that is there, says what it should, and is verified or
/// as good as certain. It asks to notify someone, waits for a decision, and names the claim and
/// the evidence that it rests on.
pub proof fn law_actions_rest_on_their_claim(
    claim: ClaimModel,
    predicate: Seq<char>,
    prediction: MicroModelPredictionModel,
    bridge: ReflexBridgeIds,
    parts: MicroModelReflexParts,
    actor: Seq<char>,
    id: Seq<char>,
)
    ensures
        !passes_gate(None, predicate),
        passes_gate(Some(claim), predicate) <==> claim.predicate == predicate && (claim.status == ClaimStatus::Verified
            || at_least(claim.confidence, Number { bits: 0x3fec_cccc_cccc_cccd })),
        ({
            let action = reflex_action(prediction, bridge, parts, actor, id);
            &&& action.id == id && action.status == ActionStatus::Proposed && action.kind == ActionKindModel::Notify
            &&& action.related_claims == seq![bridge.claim_id@] && action.supporting_evidence == seq![bridge.evidence_id@]
            &&& action.targets == seq![parts.action_target@] && action.payload == parts.action_payload@
            &&& action.proposed_by == actor && action.approved_by is None && action.executed_at is None
            &&& action.caused_by == Some(bridge.claim_event_id@) && action.created_at == prediction.created_at
        }),
{
}

/// The execution of a known backfill is answered by one outcome, which names the action, is open
/// as to what came of it, and touches the claims that the action was about. Where the action is
/// unknown, a signal says which one is missing. Everything else is left without an answer.
pub proof fn law_outcomes_answer_executed_backfills(
    events: Seq<EventKind>,
    actor: Seq<char>,
    kind: EventKind,
    actions: ActionStoreModel,
    stamp: Stamp,
)
    requires
        is_outcome_reaction(events, actor, kind, actions, stamp),
    ensures
        kind !is ActionExecuted ==> events.len() == 0,
        kind matches EventKind::ActionExecuted { action_id } ==> {
            let known = actions.actions.contains_key(action_id@);
            let action = actions.actions[action_id@];
            let answered = action.status == ActionStatus::Executed && action.kind == ActionKindModel::Backfill;
            &&& known && !answered ==> events.len() == 0
            &&& known && answered ==> events.len() == 1 && events[0] is OutcomeObserved && ({
                let outcome = events[0]->OutcomeObserved_outcome@;
                &&& outcome.id == stamp.id@ && outcome.action_id == action.id && outcome.tenant_id == action.tenant_id
                &&& outcome.kind == OutcomeKind::Unknown && outcome.updated_claims == action.related_claims
                &&& outcome.observed_events.len() == 0 && outcome.produced_evidence.len() == 0
                &&& outcome.recorded_by == actor && outcome.observed_at == stamp.timestamp && outcome.recorded_at
                    == stamp.timestamp
                &&& outcome.impact.contains_key("action_kind"@) && outcome.impact["action_kind"@] == ValueModel::Text(
                    "backfill"@,
                )
            })
            &&& !known ==> events.len() == 1 && events[0] is Signal && ({
                let payload = events[0]->Signal_payload@;
                &&& events[0]->Signal_name@ == "outcome_missing_action"@ && events[0]->Signal_source@
                    == "hydra.outcome_agent"@
                &&& payload.contains_key("action_id"@) && payload["action_id"@] == ValueModel::Text(action_id@)
                &&& payload.contains_key("agent"@) && payload["agent"@] == ValueModel::Text(actor)
            })
        },
{
    reveal_strlit("agent");
    reveal_strlit("action_id");
    reveal_strlit("reasons");
    reveal_strlit("reason");
    reveal_strlit("action_kind");
    assert("agent"@.len() != "action_id"@.len());
    assert("agent"@.len() != "reasons"@.len());
    assert("action_id"@.len() != "reasons"@.len());
    assert("reason"@.len() != "action_kind"@.len());
}

/// Where only what is new counts, the expectation becomes what was observed last, and the variance
/// the square of how far this was from what was expected.
pub proof fn law_what_is_new_may_count_alone(model: CommitRateModel, at: Timestamp, n: u64, d: u64)
    requires
        n > 0,
        d > 0,
        n + d < 2 * LEADING,
        d * d < 2 * LEADING,
        model.state.samples_seen > 0,
        model.state.ewma_rate == Number::nearest(n as nat),
        model.state.ewma_variance.bits < INFINITE,
        model.config.alpha.bits == ONE,
    ensures
        learned(model, at, Number::nearest((n + d) as nat)).ewma_rate == Number::nearest((n + d) as nat),
        learned(model, at, Number::nearest((n + d) as nat)).ewma_variance == Number::nearest((d * d) as nat),
{
    let observed = Number::nearest((n + d) as nat);
    let one = Number { bits: ONE };
    assert(model.config.alpha == one);
    crate::laws::numbers::law_whole_numbers_are_subtracted((n + d) as u64, n);
    crate::arithmetic::law_one_is_one();
    crate::laws::numbers::law_whole_numbers_are_multiplied(1, d);
    crate::laws::numbers::law_whole_numbers_are_multiplied(d, d);
    crate::laws::numbers::law_whole_numbers_add_up(n, d);
    crate::laws::coverage::law_nothing_is_left_of_one();
    let delta = Number::nearest(d as nat);
    assert(one.product(delta) == delta);
    assert(one.sum(one.negated()).bits == 0);
    let zero = Number { bits: 0 };
    crate::laws::numbers::law_the_order_makes_no_difference(zero, model.state.ewma_variance);
    nothing_of_it(model.state.ewma_variance);
    crate::laws::numbers::law_whole_numbers_add_up(0, (d * d) as u64);
    assert(Number::nearest(0) == zero);
}

} // verus!
