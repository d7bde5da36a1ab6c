//! The service that core calls: which requests are well formed, and how failures are answered.

use std::sync::Arc;

use vstd::prelude::*;
use vstd::string::*;

use crate::model::option_view;
use crate::text::same_text;
use crate::CONNECTOR_NAME;

verus! {

/// Generated service adapter around a reconciler.
pub struct ConnectorHandler<R> {
    pub reconciler: Arc<R>,
}

impl<R> ConnectorHandler<R> {
    /// Wrap a configured reconciler.
    pub fn new(reconciler: Arc<R>) -> (handler: ConnectorHandler<R>)
        ensures
            handler.reconciler == reconciler,
    {
        ConnectorHandler { reconciler }
    }
}

/// The slice that a request speaks of, as far as the request says so.
#[derive(Debug, PartialEq, Eq)]
pub struct SliceReference {
    pub connector: Option<String>,
    pub graph_id: Option<Vec<u8>>,
    pub generation: Option<u64>,
    pub sequence: Option<u64>,
}

/// A well-formed request to retire a slice.
#[derive(Debug, PartialEq, Eq)]
pub struct Retirement {
    pub graph_id: [u8; 16],
    pub generation: u64,
    pub sequence: u64,
}

/// Why a reconciler does not do what is asked.
#[derive(Debug, PartialEq, Eq)]
pub enum ReconcileError {
    Invalid(String),
    Retired,
    SequenceConflict,
    State(String),
}

/// How a failure is classified.
#[derive(Clone, Copy, Debug, PartialEq, Eq, Structural)]
pub enum ErrorCode {
    InvalidArgument,
    FailedPrecondition,
    Internal,
}

/// A failure as the caller sees it.
#[derive(Debug, PartialEq, Eq)]
pub struct ServiceError {
    pub code: ErrorCode,
    pub message: String,
}

/// What a `ServiceError` says.
pub struct ServiceErrorView {
    pub code: ErrorCode,
    pub message: Seq<char>,
}

impl View for ServiceError {
    type V = ServiceErrorView;

    open spec fn view(&self) -> ServiceErrorView {
        ServiceErrorView { code: self.code, message: self.message@ }
    }
}

/// What is wrong with a request to retire a slice: the first thing that is missing or amiss.
pub open spec fn retirement_problem(slice: Option<SliceReference>) -> Option<Seq<char>> {
    match slice {
        None => Some("slice is required"@),
        Some(slice) => if option_view(slice.connector) != Some(CONNECTOR_NAME@) {
            Some("slice.connector must be cloudflare"@)
        } else if !(slice.graph_id matches Some(id) && id@.len() == 16) {
            Some("slice.graph_id must contain 16 bytes"@)
        } else if !(slice.generation matches Some(generation) && generation > 0) {
            Some("slice.generation is required"@)
        } else if slice.sequence is None {
            Some("slice.sequence is required"@)
        } else {
            None
        },
    }
}

/// A refusal of a request that is not well formed.
fn refused(message: &str) -> (refusal: Result<Retirement, ServiceError>)
    ensures
        refusal matches Err(error) && error@ == (ServiceErrorView {
            code: ErrorCode::InvalidArgument,
            message: message@,
        }),
{
    Err(ServiceError { code: ErrorCode::InvalidArgument, message: message.to_owned() })
}

/// Check a request to retire a slice.
pub fn retire_slice(slice: &Option<SliceReference>) -> (request: Result<Retirement, ServiceError>)
    ensures
        match request {
            Ok(request) => {
                &&& retirement_problem(*slice) is None
                &&& request.graph_id@ == slice->Some_0.graph_id->Some_0@
                &&& Some(request.generation) == slice->Some_0.generation
                &&& Some(request.sequence) == slice->Some_0.sequence
            },
            Err(error) => retirement_problem(*slice) matches Some(problem) && error@ == (
            ServiceErrorView { code: ErrorCode::InvalidArgument, message: problem }),
        },
{
    let slice = match slice {
        Some(slice) => slice,
        None => {
            return refused("slice is required");
        },
    };
    match &slice.connector {
        Some(connector) => {
            if !same_text(connector.as_str(), CONNECTOR_NAME) {
                return refused("slice.connector must be cloudflare");
            }
        },
        None => {
            return refused("slice.connector must be cloudflare");
        },
    }
    let graph_id = match &slice.graph_id {
        Some(bytes) => {
            if bytes.len() != 16 {
                return refused("slice.graph_id must contain 16 bytes");
            }
            let mut id: [u8; 16] = [0u8; 16];
            for i in 0..16
                invariant
                    bytes@.len() == 16,
                    forall|j: int| 0 <= j < i ==> id@[j] == bytes@[j],
            {
                id[i] = bytes[i];
            }
            assert(id@ =~= bytes@);
            id
        },
        None => {
            return refused("slice.graph_id must contain 16 bytes");
        },
    };
    let generation = match slice.generation {
        Some(generation) => {
            if generation == 0 {
                return refused("slice.generation is required");
            }
            generation
        },
        None => {
            return refused("slice.generation is required");
        },
    };
    match slice.sequence {
        Some(sequence) => Ok(Retirement { graph_id, generation, sequence }),
        None => refused("slice.sequence is required"),
    }
}

/// How a reconciler's failure is classified.
pub open spec fn error_code(error: ReconcileError) -> ErrorCode {
    match error {
        ReconcileError::Invalid(_) => ErrorCode::InvalidArgument,
        ReconcileError::Retired | ReconcileError::SequenceConflict => ErrorCode::FailedPrecondition,
        ReconcileError::State(_) => ErrorCode::Internal,
    }
}

/// A reconciler's failure as the caller sees it, with the message that tells of it.
pub fn connect_error(error: &ReconcileError, message: String) -> (answer: ServiceError)
    ensures
        answer@ == (ServiceErrorView { code: error_code(*error), message: message@ }),
{
    let code = match error {
        ReconcileError::Invalid(_) => ErrorCode::InvalidArgument,
        ReconcileError::Retired | ReconcileError::SequenceConflict => ErrorCode::FailedPrecondition,
        ReconcileError::State(_) => ErrorCode::Internal,
    };
    ServiceError { code, message }
}

// ---------------------------------------------------------------------------
// Laws
// ---------------------------------------------------------------------------
/// A request to retire a slice is accepted exactly when it names this connector, a graph of 16
/// bytes, a generation above zero and a sequence; the first of these that is amiss is told.
pub proof fn retirements_name_their_slice(slice: Option<SliceReference>)
    ensures
        ({
            let problem = retirement_problem(slice);
            let named = slice is Some && option_view(slice->Some_0.connector) == Some(
                seq!['c', 'l', 'o', 'u', 'd', 'f', 'l', 'a', 'r', 'e'],
            );
            let graph = slice->Some_0.graph_id is Some && slice->Some_0.graph_id->Some_0@.len()
                == 16;
            let generation = slice->Some_0.generation is Some
                && slice->Some_0.generation->Some_0 >= 1;
            let sequence = slice->Some_0.sequence is Some;
            &&& problem is None <==> named && graph && generation && sequence
            &&& slice is None ==> problem == Some("slice is required"@)
            &&& slice is Some && !named ==> problem == Some("slice.connector must be cloudflare"@)
            &&& named && !graph ==> problem == Some("slice.graph_id must contain 16 bytes"@)
            &&& named && graph && !generation ==> problem == Some("slice.generation is required"@)
            &&& named && graph && generation && !sequence ==> problem == Some(
                "slice.sequence is required"@,
            )
        }),
{
    reveal_strlit("cloudflare");
    assert(CONNECTOR_NAME@ =~= seq!['c', 'l', 'o', 'u', 'd', 'f', 'l', 'a', 'r', 'e']);
}

/// The caller is blamed for an invalid request alone; a retired slice or a conflicting sequence is
/// a matter of state, and nothing but a failure of the state itself is internal.
pub proof fn failures_are_classified_by_their_cause(error: ReconcileError)
    ensures
        error_code(error) == ErrorCode::InvalidArgument <==> error is Invalid,
        error_code(error) == ErrorCode::FailedPrecondition <==> (error is Retired
            || error is SequenceConflict),
        error_code(error) == ErrorCode::Internal <==> error is State,
{
}

} // verus!
