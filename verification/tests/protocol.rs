//! Tests of the embedding worker protocol: the bounded queue, its admission
//! decisions, and reply validation.

use semantic_notes::embedder::{validate_reply, EmbedError, EmbedQueue, SubmitOutcome};
use semantic_notes::embedding::Embedding;

fn emb(values: &[i32]) -> Embedding {
    Embedding::from_values(values.to_vec())
}

fn texts(items: &[&str]) -> Vec<String> {
    items.iter().map(|s| s.to_string()).collect()
}

#[test]
fn validated_reply_has_consistent_dimensions() {
    let outputs = vec![emb(&[1, 2, 3]), emb(&[4, 5, 6])];
    let checked = validate_reply(2, outputs, 3).unwrap();
    assert_eq!(checked.len(), 2);
    assert_eq!(checked[0].values.len(), checked[1].values.len());
    assert_eq!(checked[0].values.len(), 3);
}

#[test]
fn reply_with_wrong_dimension_is_rejected() {
    let outputs = vec![emb(&[1, 2, 3]), emb(&[4, 5])];
    let r = validate_reply(2, outputs, 3);
    assert_eq!(r.unwrap_err(), EmbedError::InferenceFailure);
}

#[test]
fn reply_with_wrong_count_is_rejected() {
    let outputs = vec![emb(&[1, 2, 3])];
    let r = validate_reply(2, outputs, 3);
    assert_eq!(r.unwrap_err(), EmbedError::InferenceFailure);
}

#[test]
fn validated_reply_keeps_input_order() {
    let outputs = vec![emb(&[1, 0]), emb(&[2, 0]), emb(&[3, 0])];
    let checked = validate_reply(3, outputs, 2).unwrap();
    assert_eq!(checked[0].values, vec![1, 0]);
    assert_eq!(checked[1].values, vec![2, 0]);
    assert_eq!(checked[2].values, vec![3, 0]);
}

#[test]
fn requests_are_served_in_submission_order() {
    let mut q = EmbedQueue::new(10);
    assert_eq!(q.submit(texts(&["first"])), SubmitOutcome::Accepted(0));
    assert_eq!(q.submit(texts(&["second"])), SubmitOutcome::Accepted(1));
    assert_eq!(q.submit(texts(&["third"])), SubmitOutcome::Accepted(2));
    let a = q.take_next().unwrap();
    assert_eq!(a.ticket, 0);
    assert_eq!(a.texts, texts(&["first"]));
    let b = q.take_next().unwrap();
    assert_eq!(b.ticket, 1);
    assert_eq!(b.texts, texts(&["second"]));
    let c = q.take_next().unwrap();
    assert_eq!(c.ticket, 2);
    assert_eq!(c.texts, texts(&["third"]));
    assert!(q.take_next().is_none());
}

#[test]
fn full_queue_applies_backpressure_without_loss() {
    let mut q = EmbedQueue::new(2);
    assert_eq!(q.submit(texts(&["a"])), SubmitOutcome::Accepted(0));
    assert_eq!(q.submit(texts(&["b"])), SubmitOutcome::Accepted(1));
    // The queue is full: the third submitter must wait; nothing is dropped.
    assert_eq!(q.submit(texts(&["c"])), SubmitOutcome::MustWait);
    assert_eq!(q.pending.len(), 2);
    assert_eq!(q.pending[0].texts, texts(&["a"]));
    assert_eq!(q.pending[1].texts, texts(&["b"]));
    // Once the worker drains one, the same request is admitted.
    assert_eq!(q.take_next().unwrap().ticket, 0);
    assert_eq!(q.submit(texts(&["c"])), SubmitOutcome::Accepted(2));
}

#[test]
fn stopped_worker_fails_submissions_distinctly() {
    let mut q = EmbedQueue::new(4);
    assert_eq!(q.submit(texts(&["a"])), SubmitOutcome::Accepted(0));
    q.mark_worker_stopped();
    // No hang, no generic error: the distinct worker-stopped outcome.
    assert_eq!(q.submit(texts(&["b"])), SubmitOutcome::WorkerStopped);
    assert_eq!(q.pending.len(), 1);
}
