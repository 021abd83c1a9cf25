//! Tests of the query service: composing the embedder's outcome with the
//! store, and surfacing failures unchanged in kind.

use semantic_notes::embedder::EmbedError;
use semantic_notes::embedding::Embedding;
use semantic_notes::service::{
    add_note, delete_note, get_notes, search_notes, update_note, ServiceError,
};
use semantic_notes::store::NoteStore;

fn emb(values: &[i32]) -> Embedding {
    Embedding::from_values(values.to_vec())
}

fn reply(values: &[i32]) -> Result<Vec<Embedding>, EmbedError> {
    Ok(vec![emb(values)])
}

#[test]
fn add_then_search_finds_the_note() {
    let mut store = NoteStore::new(2);
    let note = add_note(&mut store, "remember".to_string(), reply(&[4, 4]), 1).unwrap();
    let found = search_notes(&store, reply(&[4, 4]), 5).unwrap();
    assert_eq!(found.len(), 1);
    assert_eq!(found[0].id, note.id);
    assert_eq!(found[0].content, "remember");
}

#[test]
fn semantically_closest_note_ranks_first() {
    // Embeddings stand in for meaning: "buy milk" lies near the "grocery
    // list" query, "call dentist" far from it — ranking is by embedding
    // distance, not by any substring match.
    let mut store = NoteStore::new(3);
    let milk = add_note(&mut store, "buy milk".to_string(), reply(&[10, 2, 0]), 1).unwrap();
    add_note(&mut store, "call dentist".to_string(), reply(&[-40, 75, 3]), 2).unwrap();
    let grocery_query = reply(&[9, 4, 1]);
    let found = search_notes(&store, grocery_query, 1).unwrap();
    assert_eq!(found.len(), 1);
    assert_eq!(found[0].id, milk.id);
    assert_eq!(found[0].content, "buy milk");
}

#[test]
fn worker_failure_surfaces_unchanged_in_kind() {
    let mut store = NoteStore::new(2);
    let r = add_note(
        &mut store,
        "never stored".to_string(),
        Err(EmbedError::WorkerUnavailable),
        1,
    );
    assert_eq!(r.unwrap_err(), ServiceError::WorkerUnavailable);
    assert_eq!(store.get_all().len(), 0);
    let r = search_notes(&store, Err(EmbedError::WorkerUnavailable), 5);
    assert_eq!(r.unwrap_err(), ServiceError::WorkerUnavailable);
    let r = search_notes(&store, Err(EmbedError::InferenceFailure), 5);
    assert_eq!(r.unwrap_err(), ServiceError::InferenceFailure);
}

#[test]
fn malformed_reply_fails_that_request_only() {
    let mut store = NoteStore::new(2);
    // Two embeddings for one text: not a valid reply to this call.
    let bad = Ok(vec![emb(&[1, 1]), emb(&[2, 2])]);
    let r = add_note(&mut store, "text".to_string(), bad, 1);
    assert_eq!(r.unwrap_err(), ServiceError::InferenceFailure);
    assert_eq!(store.get_all().len(), 0);
    // The store still serves the next, well-formed request.
    add_note(&mut store, "text".to_string(), reply(&[1, 1]), 2).unwrap();
    assert_eq!(store.get_all().len(), 1);
}

#[test]
fn list_update_delete_round_trip() {
    let mut store = NoteStore::new(2);
    let a = add_note(&mut store, "a".to_string(), reply(&[1, 0]), 1).unwrap();
    let b = add_note(&mut store, "b".to_string(), reply(&[0, 1]), 2).unwrap();
    let listed = get_notes(&store).unwrap();
    assert_eq!(listed.len(), 2);
    update_note(&mut store, a.id, "a, edited".to_string(), 5).unwrap();
    let listed = get_notes(&store).unwrap();
    assert_eq!(listed[0].content, "a, edited");
    assert_eq!(listed[0].updated_at, 5);
    delete_note(&mut store, b.id).unwrap();
    let listed = get_notes(&store).unwrap();
    assert_eq!(listed.len(), 1);
    assert_eq!(listed[0].id, a.id);
    assert_eq!(
        update_note(&mut store, b.id, "gone".to_string(), 6).unwrap_err(),
        ServiceError::NotFound
    );
    // Deleting the already-deleted note again is a silent no-op success.
    delete_note(&mut store, b.id).unwrap();
    let listed = get_notes(&store).unwrap();
    assert_eq!(listed.len(), 1);
    assert_eq!(listed[0].id, a.id);
}

#[test]
fn stale_index_after_update_is_preserved() {
    let mut store = NoteStore::new(2);
    let a = add_note(&mut store, "old interests".to_string(), reply(&[0, 0]), 1).unwrap();
    add_note(&mut store, "unrelated".to_string(), reply(&[90, 90]), 2).unwrap();
    update_note(&mut store, a.id, "new interests".to_string(), 3).unwrap();
    // A search with an embedding of the *new* text does not surface the note
    // any better: its index entry still holds the insertion-time embedding,
    // so the old content's position keeps deciding the ranking.
    let near_new_text = reply(&[88, 92]);
    let found = search_notes(&store, near_new_text, 1).unwrap();
    assert_eq!(found[0].content, "unrelated");
    // Queried near the old embedding, the note surfaces — with new content.
    let near_old_text = reply(&[1, 1]);
    let found = search_notes(&store, near_old_text, 1).unwrap();
    assert_eq!(found[0].id, a.id);
    assert_eq!(found[0].content, "new interests");
}

#[test]
fn exhausted_id_space_surfaces_as_storage_fault() {
    let mut store = NoteStore::new(2);
    store.next_id = u64::MAX;
    let r = add_note(&mut store, "too late".to_string(), reply(&[1, 2]), 1);
    assert_eq!(r.unwrap_err(), ServiceError::StorageExhausted);
    assert_eq!(store.get_all().len(), 0);
}

#[test]
fn error_messages_are_displayable() {
    assert_eq!(
        ServiceError::WorkerUnavailable.message(),
        "the embedding worker is unavailable"
    );
    assert_eq!(
        ServiceError::InferenceFailure.message(),
        "the embedding request failed"
    );
    assert_eq!(ServiceError::NotFound.message(), "no note has that identifier");
    assert_eq!(
        ServiceError::DimensionMismatch.message(),
        "the embedding has the wrong dimension"
    );
    assert_eq!(
        ServiceError::StorageExhausted.message(),
        "the store cannot assign another identifier"
    );
}

#[test]
fn mismatched_query_dimension_is_user_visible() {
    let mut store = NoteStore::new(3);
    add_note(&mut store, "note".to_string(), reply(&[1, 2, 3]), 1).unwrap();
    let r = search_notes(&store, reply(&[1, 2]), 5);
    assert_eq!(r.unwrap_err(), ServiceError::DimensionMismatch);
    let r = add_note(&mut store, "short".to_string(), reply(&[1, 2]), 2);
    assert_eq!(r.unwrap_err(), ServiceError::DimensionMismatch);
    assert_eq!(store.get_all().len(), 1);
}
