//! Small models that watch the engine itself.

pub mod action_failure_rate;
pub mod agent_loop_storm;
pub mod commit_rate;
pub mod reflex;
pub mod replication_lag;

pub use crate::micromodels::commit_rate::{
    AnomalyLevel, CommitRateAnomalyActionAssessment, CommitRateAnomalyAssessment, CommitRateAnomalyConfig,
    CommitRateAnomalyModel, CommitRateAnomalyOutput, CommitRateAnomalyState, Direction,
};
pub use crate::micromodels::replication_lag::{
    ReplicationLagAnomalyActionAssessment, ReplicationLagAnomalyAssessment, ReplicationLagAnomalyConfig,
    ReplicationLagAnomalyLevel, ReplicationLagAnomalyModel, ReplicationLagAnomalyOutput,
};
