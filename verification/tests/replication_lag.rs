use hydra_engine::micromodels::replication_lag::{ReplicationLagAnomalyConfig, ReplicationLagAnomalyLevel, ReplicationLagAnomalyModel};
use hydra_engine::number::Number;
use hydra_engine::time::Timestamp;

fn value_of(x: Number) -> f64 {
    f64::from_bits(x.to_bits())
}

fn at(seconds_offset: i64) -> Timestamp {
    // 2026-05-29T00:00:00Z
    Timestamp::at(1_780_012_800 + seconds_offset)
}

#[test]
fn defaults_match_patch_16_design_table() {
    let cfg = ReplicationLagAnomalyConfig::default();
    assert_eq!(cfg.warning_lag_commits, 10);
    assert_eq!(cfg.critical_lag_commits, 100);
    assert_eq!(cfg.stale_heartbeat_after_secs, 60);
}

#[test]
fn normal_when_lag_under_warning_threshold_and_heartbeat_fresh() {
    let model = ReplicationLagAnomalyModel::default();
    let out = model.evaluate_observation(at(0), 5, Some(at(-10)));
    assert_eq!(out.level, ReplicationLagAnomalyLevel::Normal);
    assert!(!out.stale_heartbeat);
    assert_eq!(out.lag_commits, 5);
    assert!(out.reason.contains("within warning threshold"));
}

#[test]
fn warning_when_lag_crosses_warning_threshold() {
    let model = ReplicationLagAnomalyModel::default();
    // Exactly at warning_lag_commits = 10 → Warning (inclusive).
    let out = model.evaluate_observation(at(0), 10, Some(at(-10)));
    assert_eq!(out.level, ReplicationLagAnomalyLevel::Warning);
    assert_eq!(out.lag_commits, 10);
    assert!(out.reason.contains("exceeds warning threshold"));
}

#[test]
fn critical_when_lag_crosses_critical_threshold() {
    let model = ReplicationLagAnomalyModel::default();
    // Exactly at critical_lag_commits = 100 → Critical.
    let out = model.evaluate_observation(at(0), 100, Some(at(-10)));
    assert_eq!(out.level, ReplicationLagAnomalyLevel::Critical);
    assert!(out.reason.contains("exceeds critical threshold"));

    // Well above critical → still Critical.
    let high = model.evaluate_observation(at(0), 500, Some(at(-10)));
    assert_eq!(high.level, ReplicationLagAnomalyLevel::Critical);
    assert_eq!(high.lag_commits, 500);
}

#[test]
fn stale_heartbeat_overrides_low_lag_to_critical() {
    // Last observation 120s ago > default 60s → stale → Critical
    // even though lag_commits is zero.
    let model = ReplicationLagAnomalyModel::default();
    let out = model.evaluate_observation(at(0), 0, Some(at(-120)));
    assert_eq!(out.level, ReplicationLagAnomalyLevel::Critical);
    assert!(out.stale_heartbeat);
    assert!(out.reason.contains("heartbeat stale"));
}

#[test]
fn never_observed_peer_is_stale() {
    let model = ReplicationLagAnomalyModel::default();
    let out = model.evaluate_observation(at(0), 0, None);
    assert_eq!(out.level, ReplicationLagAnomalyLevel::Critical);
    assert!(out.stale_heartbeat);
}

#[test]
fn clock_skew_future_timestamp_counts_as_fresh() {
    // Last observation 10s in the future (peer clock ahead of
    // ours). Treat as fresh — only forward drift counts as
    // stale. Lag is small so we should see Normal.
    let model = ReplicationLagAnomalyModel::default();
    let out = model.evaluate_observation(at(0), 0, Some(at(10)));
    assert_eq!(out.level, ReplicationLagAnomalyLevel::Normal);
    assert!(!out.stale_heartbeat);
}

#[test]
fn replication_lag_confidence_table_pinned() {
    assert_eq!(
        value_of(ReplicationLagAnomalyLevel::Normal.confidence()),
        0.85
    );
    assert_eq!(
        value_of(ReplicationLagAnomalyLevel::Warning.confidence()),
        0.85
    );
    assert_eq!(
        value_of(ReplicationLagAnomalyLevel::Critical.confidence()),
        0.95
    );
}

#[test]
fn is_actionable_matches_commit_rate_semantics() {
    // Warning + Critical → actionable; Normal → not.
    assert!(!ReplicationLagAnomalyLevel::Normal.is_actionable());
    assert!(ReplicationLagAnomalyLevel::Warning.is_actionable());
    assert!(ReplicationLagAnomalyLevel::Critical.is_actionable());
}

#[test]
fn replication_lag_with_config_overrides_defaults() {
    // Custom thresholds: warning at 5, critical at 50.
    let cfg = ReplicationLagAnomalyConfig {
        warning_lag_commits: 5,
        critical_lag_commits: 50,
        stale_heartbeat_after_secs: 30,
    };
    let model = ReplicationLagAnomalyModel::with_config(cfg);
    let out = model.evaluate_observation(at(0), 6, Some(at(-10)));
    assert_eq!(out.level, ReplicationLagAnomalyLevel::Warning);
    let out_crit = model.evaluate_observation(at(0), 50, Some(at(-10)));
    assert_eq!(out_crit.level, ReplicationLagAnomalyLevel::Critical);
    let out_stale = model.evaluate_observation(at(0), 0, Some(at(-31)));
    assert_eq!(out_stale.level, ReplicationLagAnomalyLevel::Critical);
    assert!(out_stale.stale_heartbeat);
}
