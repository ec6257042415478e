use hydra_engine::micromodels::commit_rate::{AnomalyLevel, CommitRateAnomalyConfig, CommitRateAnomalyModel, CommitRateAnomalyOutput, Direction, commits_per_minute};
use hydra_engine::number::Number;
use hydra_engine::time::Timestamp;

fn number(x: f64) -> Number {
    Number::from_bits(x.to_bits())
}

fn value_of(x: Number) -> f64 {
    f64::from_bits(x.to_bits())
}

fn at(seconds_offset: i64) -> Timestamp {
    // 2026-05-29T00:00:00Z
    Timestamp::at(1_780_012_800 + seconds_offset)
}

fn observation(model: &mut CommitRateAnomalyModel, t_offset: i64, count: u64) -> CommitRateAnomalyOutput {
    model.evaluate_observation(at(t_offset), count)
}

#[test]
fn model_in_warmup_returns_warming_up() {
    let mut model = CommitRateAnomalyModel::default();
    // warmup_samples = 5; the first five evaluations are warmup.
    for i in 0..5 {
        let out = observation(&mut model, (i * 60) as i64, 100);
        assert_eq!(out.level, AnomalyLevel::WarmingUp, "sample {i}");
        assert_eq!(out.direction, Direction::Stable);
        assert_eq!(value_of(out.z_score), 0.0);
        assert_eq!(value_of(out.level.confidence()), 0.50);
    }
    // Sixth evaluation is past warmup.
    let out = observation(&mut model, 360, 100);
    assert_ne!(out.level, AnomalyLevel::WarmingUp);
}

#[test]
fn model_warmup_initializes_ewma_to_first_sample() {
    // First observation seeds the EWMA mean directly so warmup
    // converges immediately rather than slowly bleeding zero in.
    let mut model = CommitRateAnomalyModel::default();
    let _ = observation(&mut model, 0, 100);
    assert!((value_of(model.state().ewma_rate) - 100.0).abs() < 1e-9);
    assert_eq!(model.state().samples_seen, 1);
    assert!(model.state().last_observed_at.is_some());
}

#[test]
fn model_normal_stable_traffic_after_warmup() {
    let mut model = CommitRateAnomalyModel::default();
    // Five warmup samples at 100/min.
    for i in 0..5 {
        let _ = observation(&mut model, (i * 60) as i64, 100);
    }
    // Post-warmup, same rate → Normal, Stable.
    let out = observation(&mut model, 360, 100);
    assert_eq!(out.level, AnomalyLevel::Normal);
    assert_eq!(out.direction, Direction::Stable);
    assert!(value_of(out.z_score).abs() < 3.0);
    assert!(value_of(out.observed_rate).is_finite());
    assert!(value_of(out.expected_rate).is_finite());
}

#[test]
fn model_detects_spike_critical() {
    let mut model = CommitRateAnomalyModel::default();
    // Build a stable 100/min baseline.
    for i in 0..10 {
        let _ = observation(&mut model, (i * 60) as i64, 100);
    }
    // Sudden 50× spike.
    let out = observation(&mut model, 600, 5000);
    assert_eq!(out.level, AnomalyLevel::Critical);
    assert_eq!(out.direction, Direction::Spike);
    assert!(
        value_of(out.z_score) >= 5.0,
        "expected z >= 5.0 (critical), got {}",
        value_of(out.z_score)
    );
    assert!(out.reason.contains("vastly exceeds") || out.reason.contains("exceeds"));
    assert_eq!(value_of(out.level.confidence()), 0.90);
}

#[test]
fn model_detects_drop() {
    // High baseline that then collapses to zero — agents should
    // see a Critical Drop, not a "missing" prediction.
    let mut model = CommitRateAnomalyModel::default();
    for i in 0..10 {
        let _ = observation(&mut model, (i * 60) as i64, 200);
    }
    let out = observation(&mut model, 600, 0);
    assert!(matches!(
        out.level,
        AnomalyLevel::Warning | AnomalyLevel::Critical
    ));
    assert_eq!(out.direction, Direction::Drop);
    assert!(value_of(out.z_score) < 0.0, "drop direction implies negative signed z");
    assert!(out.reason.contains("falls below"));
}

#[test]
fn model_warning_band() {
    // Tweak the config so the warning/critical bands are
    // narrow enough to force a Warning outcome with a moderate
    // observation. With variance floored at 1.0 and a stable
    // baseline near 100, the warning band is roughly +/-2 to
    // +/-3 commits/min.
    let mut model = CommitRateAnomalyModel::with_config(CommitRateAnomalyConfig {
        warning_z_score: number(2.0),
        critical_z_score: number(4.0),
        ..CommitRateAnomalyConfig::default()
    });
    for i in 0..10 {
        let _ = observation(&mut model, (i * 60) as i64, 100);
    }
    // Small spike: 100 → 103. With variance floor = 1.0 and
    // expected = 100, z = 3.0 → solidly in the warning band.
    let out = observation(&mut model, 600, 103);
    assert_eq!(out.level, AnomalyLevel::Warning);
    assert_eq!(out.direction, Direction::Spike);
    assert!(value_of(out.z_score) >= 2.0 && value_of(out.z_score) < 4.0);
    assert_eq!(value_of(out.level.confidence()), 0.75);
}

#[test]
fn model_suppresses_below_min_expected_rate() {
    // Set min_expected_rate generously so a stable 2/min
    // baseline is "too quiet to care."
    let mut model = CommitRateAnomalyModel::with_config(CommitRateAnomalyConfig {
        min_expected_rate: number(10.0),
        ..CommitRateAnomalyConfig::default()
    });
    for i in 0..10 {
        let _ = observation(&mut model, (i * 60) as i64, 2);
    }
    // 5× the baseline in absolute terms, but baseline is below
    // the floor → Normal, no fire.
    let out = observation(&mut model, 600, 10);
    assert_eq!(out.level, AnomalyLevel::Normal);
    assert_eq!(out.direction, Direction::Stable);
}

#[test]
fn model_confidence_table_matches_design() {
    // Lock the deterministic confidence table so a future
    // change here is a deliberate decision.
    assert_eq!(value_of(AnomalyLevel::WarmingUp.confidence()), 0.50);
    assert_eq!(value_of(AnomalyLevel::Normal.confidence()), 0.80);
    assert_eq!(value_of(AnomalyLevel::Warning.confidence()), 0.75);
    assert_eq!(value_of(AnomalyLevel::Critical.confidence()), 0.90);
}

#[test]
fn model_state_updates_each_call() {
    let mut model = CommitRateAnomalyModel::default();
    assert_eq!(model.state().samples_seen, 0);
    assert!(model.state().last_observed_at.is_none());

    let _ = observation(&mut model, 0, 100);
    assert_eq!(model.state().samples_seen, 1);
    assert_eq!(model.state().last_observed_at, Some(at(0)));

    let _ = observation(&mut model, 60, 110);
    assert_eq!(model.state().samples_seen, 2);
    // EWMA mean has moved off 100 toward 110 (alpha=0.2 by default).
    assert!(value_of(model.state().ewma_rate) > 100.0);
    assert!(value_of(model.state().ewma_rate) < 110.0);
}

#[test]
fn commits_per_minute_handles_non_minute_windows() {
    // 30-second window, 60 commits → 120/min.
    assert_eq!(value_of(commits_per_minute(60, 30)), 120.0);
    // 60-second window (default), 100 commits → 100/min.
    assert_eq!(value_of(commits_per_minute(100, 60)), 100.0);
    // 120-second window, 100 commits → 50/min.
    assert_eq!(value_of(commits_per_minute(100, 120)), 50.0);
    // Defensive zero-window guard.
    assert_eq!(value_of(commits_per_minute(100, 0)), 0.0);
}
