use hydra_engine::micromodels::action_failure_rate::{ActionFailureRateConfig, ActionFailureRateLevel, ActionFailureRateModel};
use hydra_engine::number::Number;

fn number(x: f64) -> Number {
    Number::from_bits(x.to_bits())
}

fn value_of(x: Number) -> f64 {
    f64::from_bits(x.to_bits())
}

#[test]
fn defaults_match_patch_19_design_table() {
    let cfg = ActionFailureRateConfig::default();
    assert_eq!(cfg.window_secs, 300);
    assert_eq!(cfg.min_actions_for_ratio, 5);
    assert_eq!(cfg.warning_failure_count, 3);
    assert_eq!(cfg.critical_failure_count, 10);
    assert!((value_of(cfg.warning_failure_ratio) - 0.25).abs() < 1e-9);
    assert!((value_of(cfg.critical_failure_ratio) - 0.50).abs() < 1e-9);
}

#[test]
fn normal_when_no_actions_in_window() {
    let model = ActionFailureRateModel::default();
    let out = model.evaluate_observation(0, 0, None);
    assert_eq!(out.level, ActionFailureRateLevel::Normal);
    assert_eq!(out.actions_seen, 0);
    assert_eq!(out.failed_actions, 0);
    assert_eq!(value_of(out.failure_ratio), 0.0);
    assert!(out.top_failed_kind.is_none());
    assert!(out.reason.contains("healthy by absence"));
}

#[test]
fn normal_when_failures_under_count_and_ratio() {
    let model = ActionFailureRateModel::default();
    // 100 actions, 2 failed → 2% failure (under 25% warning)
    // and absolute count 2 (under warning_count 3) → Normal.
    let out = model.evaluate_observation(100, 2, Some("Notify".into()));
    assert_eq!(out.level, ActionFailureRateLevel::Normal);
    assert!((value_of(out.failure_ratio) - 0.02).abs() < 1e-9);
}

#[test]
fn warning_when_absolute_count_crosses_warning() {
    let model = ActionFailureRateModel::default();
    // 100 actions, 3 failed → 3% ratio (well under warning)
    // but absolute count == 3 (== warning_count) → Warning.
    let out = model.evaluate_observation(100, 3, Some("Notify".into()));
    assert_eq!(out.level, ActionFailureRateLevel::Warning);
    assert!(out.reason.contains("warning"));
}

#[test]
fn critical_when_absolute_count_crosses_critical() {
    let model = ActionFailureRateModel::default();
    // 100 actions, 10 failed → 10% ratio (still under critical
    // 50%) but absolute count == 10 (== critical_count) →
    // Critical.
    let out = model.evaluate_observation(100, 10, Some("Notify".into()));
    assert_eq!(out.level, ActionFailureRateLevel::Critical);
    assert!(out.reason.contains("critical"));
}

#[test]
fn critical_via_ratio_when_eligible() {
    let model = ActionFailureRateModel::default();
    // 8 actions, 4 failed → 50% ratio (== critical_ratio) AND
    // actions_seen (8) >= min_actions_for_ratio (5) → Critical
    // via ratio. Absolute count (4) is under critical_count
    // (10), so this isolates the ratio gate.
    let out = model.evaluate_observation(8, 4, Some("Notify".into()));
    assert_eq!(out.level, ActionFailureRateLevel::Critical);
    assert!((value_of(out.failure_ratio) - 0.5).abs() < 1e-9);
}

#[test]
fn ratio_gate_suppressed_below_min_actions_for_ratio() {
    // 1 action, 1 failed → 100% ratio. But actions_seen (1) <
    // min_actions_for_ratio (5), so the ratio gate is
    // disabled. Absolute count (1) is under warning_count (3),
    // so → Normal. This is the
    // small-sample-no-false-positive pin.
    let model = ActionFailureRateModel::default();
    let out = model.evaluate_observation(1, 1, Some("Notify".into()));
    assert_eq!(out.level, ActionFailureRateLevel::Normal);
    // failure_ratio is still computed honestly — 1.0 — just
    // not USED for gating.
    assert!((value_of(out.failure_ratio) - 1.0).abs() < 1e-9);
}

#[test]
fn ratio_gate_disabled_does_not_block_absolute_count_gate() {
    // 4 actions, 4 failed → 100% ratio. actions_seen (4) <
    // min_actions_for_ratio (5) so ratio is disabled. But
    // absolute count (4) >= warning_count (3) → Warning. The
    // small-sample suppression must NOT block the absolute
    // gate.
    let model = ActionFailureRateModel::default();
    let out = model.evaluate_observation(4, 4, Some("Notify".into()));
    assert_eq!(out.level, ActionFailureRateLevel::Warning);
}

#[test]
fn failure_ratio_is_zero_not_nan_when_actions_seen_zero() {
    // Pin: f64 division by zero in IEEE 754 would produce
    // NaN. The model must clamp to 0.0 so JSON serialization
    // and downstream comparisons stay sane.
    let model = ActionFailureRateModel::default();
    let out = model.evaluate_observation(0, 0, None);
    assert_eq!(value_of(out.failure_ratio), 0.0);
    assert!(value_of(out.failure_ratio).is_finite());
}

#[test]
fn action_failure_rate_confidence_table_pinned() {
    assert_eq!(value_of(ActionFailureRateLevel::Normal.confidence()), 0.85);
    assert_eq!(value_of(ActionFailureRateLevel::Warning.confidence()), 0.85);
    assert_eq!(value_of(ActionFailureRateLevel::Critical.confidence()), 0.95);
}

#[test]
fn action_failure_rate_is_actionable_matches_other_threshold_models() {
    assert!(!ActionFailureRateLevel::Normal.is_actionable());
    assert!(ActionFailureRateLevel::Warning.is_actionable());
    assert!(ActionFailureRateLevel::Critical.is_actionable());
}

#[test]
fn action_failure_rate_with_config_overrides_defaults() {
    let cfg = ActionFailureRateConfig {
        window_secs: 120,
        min_actions_for_ratio: 2,
        warning_failure_count: 1,
        critical_failure_count: 5,
        warning_failure_ratio: number(0.10),
        critical_failure_ratio: number(0.30),
    };
    let model = ActionFailureRateModel::with_config(cfg);
    // 1 failure → Warning by absolute count.
    let out = model.evaluate_observation(10, 1, Some("Notify".into()));
    assert_eq!(out.level, ActionFailureRateLevel::Warning);
    // 5 of 10 → Critical by absolute count AND ratio.
    let out = model.evaluate_observation(10, 5, Some("Notify".into()));
    assert_eq!(out.level, ActionFailureRateLevel::Critical);
}
