//! Verified core of an event-sourced graph engine.

pub mod action;
pub mod action_store;
pub mod anomaly;
pub mod anomaly_rules;
pub mod arithmetic;
pub mod cascade;
pub mod causal_cell;
pub mod causal_cell_store;
pub mod commit;
pub mod commit_ledger;
pub mod counterfactual;
pub mod coverage;
pub mod decimals;
pub mod determinism;
pub mod epistemic;
pub mod epistemic_store;
pub mod error;
pub mod event;
pub mod event_log;
pub mod evolution;
pub mod graph;
pub mod identity;
pub mod identity_link_store;
pub mod identity_store;
pub mod ids;
pub mod index;
pub mod laws;
pub mod micromodel;
pub mod micromodel_store;
pub mod micromodels;
pub mod number;
pub mod outcome_agent;
pub mod policy;
pub mod policy_agent;
pub mod policy_engine;
pub mod policy_store;
pub mod projection;
pub mod registry;
pub mod table;
pub mod text;
pub mod time;
pub mod value;
