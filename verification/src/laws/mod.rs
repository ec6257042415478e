//! What the operations of the engine must satisfy, stated of what goes in and what comes out.

pub mod anomalies;
pub mod batches;
pub mod cascades;
pub mod counterfactuals;
pub mod coverage;
pub mod events;
pub mod graphs;
pub mod ledger;
pub mod logs;
pub mod material;
pub mod models;
pub mod numbers;
pub mod orders;
pub mod policies;
pub mod stores;
pub mod subscriptions;
pub mod texts;
pub mod values;
