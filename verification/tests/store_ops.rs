//! Tests of the note store: atomic writes, the cross-table invariant, and
//! nearest-first search.

use semantic_notes::embedding::Embedding;
use semantic_notes::store::{NoteStore, StoreError};

fn emb(values: &[i32]) -> Embedding {
    Embedding::from_values(values.to_vec())
}

#[test]
fn squared_distance_has_exact_value() {
    let a = emb(&[1, 2]);
    let b = emb(&[4, 6]);
    assert_eq!(a.dim(), 2);
    assert_eq!(a.squared_distance(&b), Some(25));
    assert_eq!(b.squared_distance(&a), Some(25));
    assert_eq!(a.squared_distance(&a), Some(0));
}

#[test]
fn squared_distance_rejects_mismatched_dimensions() {
    let a = emb(&[1, 2]);
    let b = emb(&[4, 6, 8]);
    assert_eq!(a.squared_distance(&b), None);
}

#[test]
fn insert_assigns_monotonic_ids_and_timestamps() {
    let mut store = NoteStore::new(2);
    let first = store.insert("one".to_string(), emb(&[0, 0]), 11).unwrap();
    let second = store.insert("two".to_string(), emb(&[1, 1]), 22).unwrap();
    assert_eq!(first.id, 1);
    assert_eq!(second.id, 2);
    assert_eq!(first.created_at, 11);
    assert_eq!(first.updated_at, 11);
    assert_eq!(second.created_at, 22);
    let all = store.get_all();
    assert_eq!(all.len(), 2);
    assert_eq!(all[0].content, "one");
    assert_eq!(all[1].content, "two");
}

#[test]
fn inserted_note_is_retrievable_by_its_embedding() {
    let mut store = NoteStore::new(3);
    let e = emb(&[7, -3, 12]);
    let note = store.insert("remember this".to_string(), e, 5).unwrap();
    let results = store.search(&emb(&[7, -3, 12]), 10).unwrap();
    assert_eq!(results.len(), 1);
    assert_eq!(results[0].id, note.id);
    assert_eq!(results[0].content, "remember this");
}

#[test]
fn inserted_note_ranks_first_for_its_own_embedding() {
    let mut store = NoteStore::new(2);
    store.insert("other".to_string(), emb(&[50, 50]), 1).unwrap();
    let target = store.insert("target".to_string(), emb(&[7, 8]), 2).unwrap();
    // The fresh note sits at distance zero to its own embedding, so no entry
    // ranks before it and a limit of one already retrieves it.
    let results = store.search(&emb(&[7, 8]), 1).unwrap();
    assert_eq!(results.len(), 1);
    assert_eq!(results[0].id, target.id);
}

#[test]
fn failed_insert_leaves_no_trace() {
    let mut store = NoteStore::new(3);
    store.insert("kept".to_string(), emb(&[1, 1, 1]), 1).unwrap();
    // Wrong dimension: the insert fails as one unit.
    let r = store.insert("rejected".to_string(), emb(&[1, 1]), 2);
    assert_eq!(r.unwrap_err(), StoreError::DimensionMismatch);
    let all = store.get_all();
    assert_eq!(all.len(), 1);
    assert_eq!(all[0].content, "kept");
    assert_eq!(store.index.len(), 1);
}

#[test]
fn delete_removes_note_and_index_entry() {
    let mut store = NoteStore::new(2);
    let doomed = store.insert("doomed".to_string(), emb(&[5, 5]), 1).unwrap();
    let kept = store.insert("kept".to_string(), emb(&[9, 9]), 2).unwrap();
    assert!(store.delete(doomed.id));
    // Neither the note row nor the index entry survives.
    let all = store.get_all();
    assert_eq!(all.len(), 1);
    assert_eq!(all[0].id, kept.id);
    assert!(store.index.iter().all(|entry| entry.id != doomed.id));
    // And search can never surface the deleted identifier, even when queried
    // with the deleted note's own embedding.
    let results = store.search(&emb(&[5, 5]), 10).unwrap();
    assert_eq!(results.len(), 1);
    assert_eq!(results[0].id, kept.id);
}

#[test]
fn deleting_unknown_id_is_a_silent_no_op() {
    let mut store = NoteStore::new(2);
    store.insert("only".to_string(), emb(&[1, 2]), 1).unwrap();
    // No matching row: nothing removed, nothing failed.
    assert!(!store.delete(99));
    assert_eq!(store.get_all().len(), 1);
    assert_eq!(store.index.len(), 1);
}

#[test]
fn deleting_twice_equals_deleting_once() {
    let mut store = NoteStore::new(2);
    let doomed = store.insert("doomed".to_string(), emb(&[5, 5]), 1).unwrap();
    let kept = store.insert("kept".to_string(), emb(&[9, 9]), 2).unwrap();
    assert!(store.delete(doomed.id));
    // The second delete of the same identifier is a no-op, not an error.
    assert!(!store.delete(doomed.id));
    let all = store.get_all();
    assert_eq!(all.len(), 1);
    assert_eq!(all[0].id, kept.id);
    assert_eq!(store.index.len(), 1);
}

#[test]
fn index_never_dangles_after_mixed_operations() {
    let mut store = NoteStore::new(2);
    let a = store.insert("a".to_string(), emb(&[0, 0]), 1).unwrap();
    let b = store.insert("b".to_string(), emb(&[3, 4]), 2).unwrap();
    let c = store.insert("c".to_string(), emb(&[6, 8]), 3).unwrap();
    assert!(store.delete(b.id));
    store.update(c.id, "c, edited".to_string(), 9).unwrap();
    // Full-table scan: every index entry's identifier matches a live note,
    // and every note has exactly one index entry.
    let notes = store.get_all();
    assert_eq!(store.index.len(), notes.len());
    for entry in store.index.iter() {
        assert_eq!(notes.iter().filter(|n| n.id == entry.id).count(), 1);
    }
    for note in notes.iter() {
        assert_eq!(store.index.iter().filter(|e| e.id == note.id).count(), 1);
    }
    let _ = a;
}

#[test]
fn search_ranks_nearest_first() {
    let mut store = NoteStore::new(2);
    let far = store.insert("far".to_string(), emb(&[100, 100]), 1).unwrap();
    let near = store.insert("near".to_string(), emb(&[3, 3]), 2).unwrap();
    let mid = store.insert("mid".to_string(), emb(&[20, 20]), 3).unwrap();
    let results = store.search(&emb(&[0, 0]), 10).unwrap();
    assert_eq!(results.len(), 3);
    assert_eq!(results[0].id, near.id);
    assert_eq!(results[1].id, mid.id);
    assert_eq!(results[2].id, far.id);
}

#[test]
fn search_limit_truncates_after_ranking() {
    let mut store = NoteStore::new(1);
    store.insert("third".to_string(), emb(&[30]), 1).unwrap();
    let first = store.insert("first".to_string(), emb(&[1]), 2).unwrap();
    let second = store.insert("second".to_string(), emb(&[10]), 3).unwrap();
    let results = store.search(&emb(&[0]), 2).unwrap();
    assert_eq!(results.len(), 2);
    assert_eq!(results[0].id, first.id);
    assert_eq!(results[1].id, second.id);
}

#[test]
fn equal_distances_break_ties_by_identifier() {
    let mut store = NoteStore::new(2);
    let a = store.insert("a".to_string(), emb(&[1, 0]), 1).unwrap();
    let b = store.insert("b".to_string(), emb(&[0, 1]), 2).unwrap();
    // Both entries are at squared distance 1 from the query.
    let results = store.search(&emb(&[0, 0]), 10).unwrap();
    assert_eq!(results.len(), 2);
    assert_eq!(results[0].id, a.id);
    assert_eq!(results[1].id, b.id);
    assert!(a.id < b.id);
}

#[test]
fn search_with_wrong_dimension_fails() {
    let mut store = NoteStore::new(3);
    store.insert("note".to_string(), emb(&[1, 2, 3]), 1).unwrap();
    let r = store.search(&emb(&[1, 2]), 10);
    assert_eq!(r.unwrap_err(), StoreError::DimensionMismatch);
}

#[test]
fn update_changes_content_but_not_the_index() {
    let mut store = NoteStore::new(2);
    let a = store.insert("old text".to_string(), emb(&[0, 0]), 1).unwrap();
    let b = store.insert("other".to_string(), emb(&[50, 50]), 2).unwrap();
    store.update(a.id, "new text".to_string(), 7).unwrap();
    // The documented staleness: the index still holds the insertion-time
    // embedding, so a query near the old embedding surfaces the note —
    // now carrying the new content.
    let results = store.search(&emb(&[0, 0]), 1).unwrap();
    assert_eq!(results[0].id, a.id);
    assert_eq!(results[0].content, "new text");
    assert_eq!(results[0].updated_at, 7);
    assert_eq!(results[0].created_at, 1);
    // A query near the new text's (hypothetical) embedding is not helped:
    // nothing was re-indexed.
    let results = store.search(&emb(&[50, 50]), 1).unwrap();
    assert_eq!(results[0].id, b.id);
}

#[test]
fn updating_unknown_id_fails_without_change() {
    let mut store = NoteStore::new(2);
    store.insert("only".to_string(), emb(&[1, 2]), 1).unwrap();
    assert_eq!(
        store.update(42, "ghost".to_string(), 9).unwrap_err(),
        StoreError::NotFound
    );
    let all = store.get_all();
    assert_eq!(all[0].content, "only");
    assert_eq!(all[0].updated_at, 1);
}

#[test]
fn id_space_exhaustion_is_reported() {
    let mut store = NoteStore::new(1);
    store.next_id = u64::MAX;
    let r = store.insert("too late".to_string(), emb(&[1]), 1);
    assert_eq!(r.unwrap_err(), StoreError::IdSpaceExhausted);
    assert_eq!(store.get_all().len(), 0);
}
