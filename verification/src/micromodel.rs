//! Registered small models, their predictions and what was observed.

use crate::ids::{ActorId, MicroModelId, MicroModelRunId};
use crate::index::Key;
use crate::number::Number;
use crate::text::{clone_opt_string, opt_chars};
use crate::time::Timestamp;
use vstd::prelude::*;

verus! {

/// What a small model watches.
#[derive(Debug, PartialEq)]
pub enum MicroModelKind {
    ReplicationLagAnomaly,
    CommitRatePredictor,
    AutoTuner,
    Other(String),
}

/// What a kind of small model stands for.
pub enum MicroModelKindModel {
    ReplicationLagAnomaly,
    CommitRatePredictor,
    AutoTuner,
    Other(Seq<char>),
}

impl View for MicroModelKind {
    type V = MicroModelKindModel;

    open spec fn view(&self) -> MicroModelKindModel {
        match *self {
            MicroModelKind::ReplicationLagAnomaly => MicroModelKindModel::ReplicationLagAnomaly,
            MicroModelKind::CommitRatePredictor => MicroModelKindModel::CommitRatePredictor,
            MicroModelKind::AutoTuner => MicroModelKindModel::AutoTuner,
            MicroModelKind::Other(x) => MicroModelKindModel::Other(x@),
        }
    }
}

impl Clone for MicroModelKind {
    fn clone(&self) -> (r: Self)
        ensures
            r@ == self@,
    {
        match self {
            MicroModelKind::ReplicationLagAnomaly => MicroModelKind::ReplicationLagAnomaly,
            MicroModelKind::CommitRatePredictor => MicroModelKind::CommitRatePredictor,
            MicroModelKind::AutoTuner => MicroModelKind::AutoTuner,
            MicroModelKind::Other(x) => MicroModelKind::Other(x.clone()),
        }
    }
}

impl Key for MicroModelKind {
    fn same(&self, other: &Self) -> (r: bool) {
        match (self, other) {
            (MicroModelKind::ReplicationLagAnomaly, MicroModelKind::ReplicationLagAnomaly) => true,
            (MicroModelKind::CommitRatePredictor, MicroModelKind::CommitRatePredictor) => true,
            (MicroModelKind::AutoTuner, MicroModelKind::AutoTuner) => true,
            (MicroModelKind::Other(x), MicroModelKind::Other(y)) => *x == *y,
            _ => false,
        }
    }

    fn copy(&self) -> (r: Self) {
        self.clone()
    }
}

/// Whether a small model is in use.
#[derive(Debug, Clone, Copy, PartialEq, Eq, Structural, Hash)]
pub enum MicroModelStatus {
    Registered,
    Active,
    Disabled,
    Archived,
}

impl View for MicroModelStatus {
    type V = MicroModelStatus;

    open spec fn view(&self) -> MicroModelStatus {
        *self
    }
}

impl Key for MicroModelStatus {
    fn same(&self, other: &Self) -> (r: bool) {
        *self == *other
    }

    fn copy(&self) -> (r: Self) {
        *self
    }
}

/// A registered small model.
#[derive(Debug, PartialEq)]
pub struct MicroModelDefinition {
    pub id: MicroModelId,
    pub kind: MicroModelKind,
    pub name: String,
    pub version: u32,
    pub status: MicroModelStatus,
    pub input_schema: String,
    pub output_schema: String,
    pub created_by: ActorId,
    pub created_at: Timestamp,
}

/// What a registered small model stands for.
pub struct MicroModelDefinitionModel {
    pub id: Seq<char>,
    pub kind: MicroModelKindModel,
    pub name: Seq<char>,
    pub version: u32,
    pub status: MicroModelStatus,
    pub input_schema: Seq<char>,
    pub output_schema: Seq<char>,
    pub created_by: Seq<char>,
    pub created_at: Timestamp,
}

impl View for MicroModelDefinition {
    type V = MicroModelDefinitionModel;

    open spec fn view(&self) -> MicroModelDefinitionModel {
        MicroModelDefinitionModel {
            id: self.id@,
            kind: self.kind@,
            name: self.name@,
            version: self.version,
            status: self.status,
            input_schema: self.input_schema@,
            output_schema: self.output_schema@,
            created_by: self.created_by@,
            created_at: self.created_at,
        }
    }
}

impl Clone for MicroModelDefinition {
    fn clone(&self) -> (r: Self)
        ensures
            r@ == self@,
    {
        MicroModelDefinition {
            id: self.id.clone(),
            kind: self.kind.clone(),
            name: self.name.clone(),
            version: self.version,
            status: self.status,
            input_schema: self.input_schema.clone(),
            output_schema: self.output_schema.clone(),
            created_by: self.created_by.clone(),
            created_at: self.created_at,
        }
    }
}

/// A prediction of a small model. Input and output are encoded documents.
#[derive(Debug, PartialEq)]
pub struct MicroModelPrediction {
    pub model_id: MicroModelId,
    pub run_id: MicroModelRunId,
    pub input: String,
    pub output: String,
    pub confidence: Number,
    pub explanation: Option<String>,
    pub created_at: Timestamp,
}

/// What a prediction stands for.
pub struct MicroModelPredictionModel {
    pub model_id: Seq<char>,
    pub run_id: Seq<char>,
    pub input: Seq<char>,
    pub output: Seq<char>,
    pub confidence: Number,
    pub explanation: Option<Seq<char>>,
    pub created_at: Timestamp,
}

impl View for MicroModelPrediction {
    type V = MicroModelPredictionModel;

    open spec fn view(&self) -> MicroModelPredictionModel {
        MicroModelPredictionModel {
            model_id: self.model_id@,
            run_id: self.run_id@,
            input: self.input@,
            output: self.output@,
            confidence: self.confidence,
            explanation: opt_chars(self.explanation),
            created_at: self.created_at,
        }
    }
}

impl Clone for MicroModelPrediction {
    fn clone(&self) -> (r: Self)
        ensures
            r@ == self@,
    {
        MicroModelPrediction {
            model_id: self.model_id.clone(),
            run_id: self.run_id.clone(),
            input: self.input.clone(),
            output: self.output.clone(),
            confidence: self.confidence,
            explanation: clone_opt_string(&self.explanation),
            created_at: self.created_at,
        }
    }
}

/// What was observed after a prediction.
#[derive(Debug, PartialEq)]
pub struct MicroModelObservation {
    pub run_id: MicroModelRunId,
    pub observed_outcome: String,
    pub error: Option<Number>,
    pub observed_at: Timestamp,
}

/// What an observation stands for.
pub struct MicroModelObservationModel {
    pub run_id: Seq<char>,
    pub observed_outcome: Seq<char>,
    pub error: Option<Number>,
    pub observed_at: Timestamp,
}

impl View for MicroModelObservation {
    type V = MicroModelObservationModel;

    open spec fn view(&self) -> MicroModelObservationModel {
        MicroModelObservationModel {
            run_id: self.run_id@,
            observed_outcome: self.observed_outcome@,
            error: self.error,
            observed_at: self.observed_at,
        }
    }
}

impl Clone for MicroModelObservation {
    fn clone(&self) -> (r: Self)
        ensures
            r@ == self@,
    {
        MicroModelObservation {
            run_id: self.run_id.clone(),
            observed_outcome: self.observed_outcome.clone(),
            error: self.error,
            observed_at: self.observed_at,
        }
    }
}

} // verus!
