//! Errors of the engine.

use crate::ids::{EdgeId, EventId, NodeId};
use vstd::prelude::*;

verus! {

/// Why the engine refused a request.
#[derive(Debug, PartialEq)]
pub enum HydraError {
    NodeAlreadyExists(NodeId),
    NodeNotFound(NodeId),
    EdgeAlreadyExists(EdgeId),
    EdgeNotFound(EdgeId),
    InvalidEdgeEndpoints { source: NodeId, target: NodeId },
    EventNotFound(EventId),
    QueryError(String),
    SerializationError(String),
}

/// What an error stands for.
pub enum ErrorModel {
    NodeAlreadyExists(Seq<char>),
    NodeNotFound(Seq<char>),
    EdgeAlreadyExists(Seq<char>),
    EdgeNotFound(Seq<char>),
    InvalidEdgeEndpoints { source: Seq<char>, target: Seq<char> },
    EventNotFound(Seq<char>),
    QueryError(Seq<char>),
    SerializationError(Seq<char>),
}

impl View for HydraError {
    type V = ErrorModel;

    open spec fn view(&self) -> ErrorModel {
        match *self {
            HydraError::NodeAlreadyExists(id) => ErrorModel::NodeAlreadyExists(id@),
            HydraError::NodeNotFound(id) => ErrorModel::NodeNotFound(id@),
            HydraError::EdgeAlreadyExists(id) => ErrorModel::EdgeAlreadyExists(id@),
            HydraError::EdgeNotFound(id) => ErrorModel::EdgeNotFound(id@),
            HydraError::InvalidEdgeEndpoints { source, target } => ErrorModel::InvalidEdgeEndpoints {
                source: source@,
                target: target@,
            },
            HydraError::EventNotFound(id) => ErrorModel::EventNotFound(id@),
            HydraError::QueryError(message) => ErrorModel::QueryError(message@),
            HydraError::SerializationError(message) => ErrorModel::SerializationError(message@),
        }
    }
}

/// Whether an outcome without a value is the one of the model: success, or that error.
pub open spec fn same_outcome(r: Result<(), HydraError>, model: Result<(), ErrorModel>) -> bool {
    match (r, model) {
        (Ok(_), Ok(_)) => true,
        (Err(e), Err(m)) => e@ == m,
        _ => false,
    }
}

/// A query error whose message is a text followed by an identifier.
pub fn query_error(text: &str, detail: &str) -> (r: HydraError)
    ensures
        r@ == ErrorModel::QueryError(text@ + detail@),
{
    let mut message = text.to_owned();
    vstd::string::StringExecFns::append(&mut message, detail);
    HydraError::QueryError(message)
}

} // verus!
