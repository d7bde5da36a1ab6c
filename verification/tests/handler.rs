use connector_cloudflare::handler::{
    connect_error, retire_slice, ConnectorHandler, ErrorCode, ReconcileError, Retirement,
    SliceReference,
};
use std::sync::Arc;

fn reference() -> SliceReference {
    SliceReference {
        connector: Some("cloudflare".to_string()),
        graph_id: Some(vec![8; 16]),
        generation: Some(3),
        sequence: Some(0),
    }
}

fn refusal(slice: Option<SliceReference>) -> String {
    let error = retire_slice(&slice).unwrap_err();
    assert_eq!(error.code, ErrorCode::InvalidArgument);
    error.message
}

#[test]
fn handlers_wrap_a_reconciler() {
    let reconciler = Arc::new(7);
    let handler = ConnectorHandler::new(reconciler.clone());
    assert!(Arc::ptr_eq(&handler.reconciler, &reconciler));
}

#[test]
fn well_formed_retirements_are_taken() {
    assert_eq!(
        retire_slice(&Some(reference())).unwrap(),
        Retirement { graph_id: [8; 16], generation: 3, sequence: 0 }
    );
}

#[test]
fn malformed_retirements_are_refused() {
    assert_eq!(refusal(None), "slice is required");
    let mut slice = reference();
    slice.sequence = None;
    assert_eq!(refusal(Some(slice)), "slice.sequence is required");
    let mut slice = reference();
    slice.generation = Some(0);
    slice.sequence = None;
    assert_eq!(refusal(Some(slice)), "slice.generation is required");
    let mut slice = reference();
    slice.generation = None;
    assert_eq!(refusal(Some(slice)), "slice.generation is required");
    let mut slice = reference();
    slice.graph_id = Some(vec![8; 15]);
    slice.generation = None;
    assert_eq!(refusal(Some(slice)), "slice.graph_id must contain 16 bytes");
    let mut slice = reference();
    slice.graph_id = None;
    assert_eq!(refusal(Some(slice)), "slice.graph_id must contain 16 bytes");
    let mut slice = reference();
    slice.connector = Some("aws".to_string());
    slice.graph_id = None;
    assert_eq!(refusal(Some(slice)), "slice.connector must be cloudflare");
    let mut slice = reference();
    slice.connector = None;
    assert_eq!(refusal(Some(slice)), "slice.connector must be cloudflare");
}

#[test]
fn failures_are_classified() {
    let cases = [
        (ReconcileError::Invalid("x".to_string()), ErrorCode::InvalidArgument),
        (ReconcileError::Retired, ErrorCode::FailedPrecondition),
        (ReconcileError::SequenceConflict, ErrorCode::FailedPrecondition),
        (ReconcileError::State("y".to_string()), ErrorCode::Internal),
    ];
    for (error, code) in cases {
        let answer = connect_error(&error, "told".to_string());
        assert_eq!(answer.code, code);
        assert_eq!(answer.message, "told");
    }
}
