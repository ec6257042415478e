use hydra_engine::micromodels::agent_loop_storm::{AgentLoopStormConfig, AgentLoopStormLevel, AgentLoopStormModel};
use hydra_engine::number::Number;

fn value_of(x: Number) -> f64 {
    f64::from_bits(x.to_bits())
}

#[test]
fn defaults_match_patch_18_design_table() {
    let cfg = AgentLoopStormConfig::default();
    assert_eq!(cfg.window_secs, 60);
    assert_eq!(cfg.warning_agent_events, 50);
    assert_eq!(cfg.critical_agent_events, 200);
    assert_eq!(cfg.warning_actions_proposed, 10);
    assert_eq!(cfg.critical_actions_proposed, 50);
    assert_eq!(cfg.same_actor_warning, 30);
    assert_eq!(cfg.same_actor_critical, 100);
}

#[test]
fn normal_when_all_counts_under_thresholds() {
    let model = AgentLoopStormModel::default();
    let out = model.evaluate_observation(10, 2, 3, Some("actor_x".into()), 5);
    assert_eq!(out.level, AgentLoopStormLevel::Normal);
    assert!(out.reason.contains("within thresholds"));
}

#[test]
fn warning_when_total_agent_events_crosses_warning() {
    let model = AgentLoopStormModel::default();
    // Exactly at warning_agent_events = 50 → Warning.
    let out = model.evaluate_observation(50, 0, 0, None, 0);
    assert_eq!(out.level, AgentLoopStormLevel::Warning);
    assert!(out.reason.contains("warning level"));
}

#[test]
fn critical_when_total_agent_events_crosses_critical() {
    let model = AgentLoopStormModel::default();
    let out = model.evaluate_observation(245, 0, 0, None, 0);
    assert_eq!(out.level, AgentLoopStormLevel::Critical);
    assert!(out.reason.contains("critical level"));
}

#[test]
fn critical_when_actions_proposed_crosses_critical_only() {
    // Total events under threshold, but actions alone cross.
    let model = AgentLoopStormModel::default();
    let out = model.evaluate_observation(20, 50, 0, None, 0);
    assert_eq!(out.level, AgentLoopStormLevel::Critical);
}

#[test]
fn critical_when_top_actor_alone_crosses_critical() {
    // Total events and actions under thresholds, but a single
    // actor's count crosses → Critical. This is the
    // "one actor running wild" detection path.
    let model = AgentLoopStormModel::default();
    let out = model.evaluate_observation(
        120, // < critical_agent_events 200 → not by total
        5,   // < critical_actions 50 → not by actions
        5,
        Some("actor_data_quality_agent".into()),
        100, // == same_actor_critical → critical
    );
    assert_eq!(out.level, AgentLoopStormLevel::Critical);
    assert!(out.reason.contains("actor_data_quality_agent"));
}

#[test]
fn warning_via_top_actor_only() {
    let model = AgentLoopStormModel::default();
    let out = model.evaluate_observation(
        10,
        3,
        3,
        Some("actor_chatty".into()),
        30, // == same_actor_warning
    );
    assert_eq!(out.level, AgentLoopStormLevel::Warning);
    assert!(out.reason.contains("actor_chatty"));
}

#[test]
fn agent_loop_storm_confidence_table_pinned() {
    assert_eq!(value_of(AgentLoopStormLevel::Normal.confidence()), 0.85);
    assert_eq!(value_of(AgentLoopStormLevel::Warning.confidence()), 0.85);
    assert_eq!(value_of(AgentLoopStormLevel::Critical.confidence()), 0.95);
}

#[test]
fn agent_loop_storm_is_actionable_matches_other_threshold_models() {
    assert!(!AgentLoopStormLevel::Normal.is_actionable());
    assert!(AgentLoopStormLevel::Warning.is_actionable());
    assert!(AgentLoopStormLevel::Critical.is_actionable());
}

#[test]
fn agent_loop_storm_with_config_overrides_defaults() {
    let cfg = AgentLoopStormConfig {
        window_secs: 30,
        warning_agent_events: 5,
        critical_agent_events: 20,
        warning_actions_proposed: 2,
        critical_actions_proposed: 10,
        same_actor_warning: 3,
        same_actor_critical: 7,
    };
    let model = AgentLoopStormModel::with_config(cfg);
    // 6 events → Warning by total.
    let out = model.evaluate_observation(6, 0, 0, None, 0);
    assert_eq!(out.level, AgentLoopStormLevel::Warning);
    // 7 same-actor → Critical by top-actor.
    let out = model.evaluate_observation(4, 0, 0, Some("a".into()), 7);
    assert_eq!(out.level, AgentLoopStormLevel::Critical);
}
