//! The query service: the five operations the command layer exposes.
//!
//! Each operation composes the embedder client and the note store and
//! surfaces either one's failure unchanged in kind. The embedding of the
//! caller's text is obtained through the worker protocol before these
//! functions run; they receive its outcome and carry it to the store, so
//! every decision after the blocking inference is verified here.

use vstd::prelude::*;
use crate::embedder::EmbedError;
use crate::embedding::Embedding;
use crate::store::{contains_id, entry_contains_id, search_post, Note, NoteStore, StoreError};

verus! {

/// Every failure a caller of the five operations can see, distinguishing
/// user-correctable input problems from systemic faults.
#[derive(Clone, Copy, Debug, PartialEq, Eq, Structural)]
pub enum ServiceError {
    /// The embedding worker's thread has stopped; systemic.
    WorkerUnavailable,
    /// This request's inference failed; the worker keeps serving.
    InferenceFailure,
    /// The identifier names no live note; user-correctable.
    NotFound,
    /// An embedding's length differs from the store's dimension.
    DimensionMismatch,
    /// The store cannot assign another identifier; systemic.
    StorageExhausted,
}

/// How an embedder failure surfaces to the caller: unchanged in kind.
pub open spec fn lift_embed_error(e: EmbedError) -> ServiceError {
    match e {
        EmbedError::WorkerUnavailable => ServiceError::WorkerUnavailable,
        EmbedError::InferenceFailure => ServiceError::InferenceFailure,
    }
}

/// How a store failure surfaces to the caller: unchanged in kind.
pub open spec fn lift_store_error(e: StoreError) -> ServiceError {
    match e {
        StoreError::NotFound => ServiceError::NotFound,
        StoreError::DimensionMismatch => ServiceError::DimensionMismatch,
        StoreError::IdSpaceExhausted => ServiceError::StorageExhausted,
    }
}

impl ServiceError {
    /// A caller-displayable description of the failure.
    pub fn message(&self) -> (r: &'static str)
        ensures
            *self is WorkerUnavailable ==> r@ == "the embedding worker is unavailable"@,
            *self is InferenceFailure ==> r@ == "the embedding request failed"@,
            *self is NotFound ==> r@ == "no note has that identifier"@,
            *self is DimensionMismatch ==> r@ == "the embedding has the wrong dimension"@,
            *self is StorageExhausted ==> r@ == "the store cannot assign another identifier"@,
    {
        match self {
            ServiceError::WorkerUnavailable => "the embedding worker is unavailable",
            ServiceError::InferenceFailure => "the embedding request failed",
            ServiceError::NotFound => "no note has that identifier",
            ServiceError::DimensionMismatch => "the embedding has the wrong dimension",
            ServiceError::StorageExhausted => "the store cannot assign another identifier",
        }
    }
}

/// Rank the store's notes against the encoded query, nearest first.
///
/// `encoded` is the worker's reply to encoding the one query text; an
/// embedder failure passes through, a reply that is not exactly one
/// embedding fails as inference, and otherwise the store's ranked search
/// answers.
pub fn search_notes(
    store: &NoteStore,
    encoded: Result<Vec<Embedding>, EmbedError>,
    limit: usize,
) -> (r: Result<Vec<Note>, ServiceError>)
    requires
        store.wf(),
    ensures
        encoded matches Err(e) ==> r == Err::<Vec<Note>, ServiceError>(lift_embed_error(e)),
        encoded matches Ok(v) ==> (v@.len() != 1 ==> r == Err::<Vec<Note>, ServiceError>(
            ServiceError::InferenceFailure,
        )),
        encoded matches Ok(v) ==> (v@.len() == 1 ==> {
            &&& (r is Ok <==> v@[0]@.len() == store.dim)
            &&& (r matches Ok(rs) ==> search_post(*store, v@[0]@, limit as int, rs@))
            &&& (r is Err ==> r == Err::<Vec<Note>, ServiceError>(ServiceError::DimensionMismatch))
        }),
{
    match encoded {
        Err(e) => Err(lift_embed(e)),
        Ok(v) => {
            if v.len() != 1 {
                return Err(ServiceError::InferenceFailure);
            }
            match store.search(&v[0], limit) {
                Ok(rs) => Ok(rs),
                Err(e) => Err(lift_store(e)),
            }
        },
    }
}

/// Add a note: insert the text with its just-computed embedding as one
/// atomic unit, and return the stored note. On any failure the store is
/// exactly as it was.
pub fn add_note(
    store: &mut NoteStore,
    content: String,
    encoded: Result<Vec<Embedding>, EmbedError>,
    now: u64,
) -> (r: Result<Note, ServiceError>)
    requires
        old(store).wf(),
    ensures
        final(store).wf(),
        r is Err ==> *final(store) == *old(store),
        encoded matches Err(e) ==> r == Err::<Note, ServiceError>(lift_embed_error(e)),
        encoded matches Ok(v) ==> (v@.len() != 1 ==> r == Err::<Note, ServiceError>(
            ServiceError::InferenceFailure,
        )),
        encoded matches Ok(v) ==> (v@.len() == 1 ==> {
            &&& (r is Ok <==> (v@[0]@.len() == old(store).dim && old(store).next_id < u64::MAX))
            &&& (r matches Ok(note) ==> NoteStore::inserted(
                *old(store),
                *final(store),
                note,
                content,
                v@[0],
                now,
            ))
            &&& (r matches Err(e) ==> (e == ServiceError::DimensionMismatch <==> v@[0]@.len()
                != old(store).dim))
            &&& (r matches Err(e) ==> (e == ServiceError::StorageExhausted <==> (v@[0]@.len()
                == old(store).dim && old(store).next_id == u64::MAX)))
        }),
{
    match encoded {
        Err(e) => Err(lift_embed(e)),
        Ok(mut v) => {
            if v.len() != 1 {
                return Err(ServiceError::InferenceFailure);
            }
            let embedding = v.remove(0);
            match store.insert(content, embedding, now) {
                Ok(note) => Ok(note),
                Err(e) => Err(lift_store(e)),
            }
        },
    }
}

/// List every note.
pub fn get_notes(store: &NoteStore) -> (r: Result<Vec<Note>, ServiceError>)
    ensures
        r matches Ok(v) && v@ == store.notes@,
{
    Ok(store.get_all())
}

/// Overwrite a note's content and update timestamp. The vector index is
/// deliberately untouched, so search keeps ranking the note by its
/// insertion-time embedding until it is re-indexed.
pub fn update_note(store: &mut NoteStore, id: u64, content: String, now: u64) -> (r: Result<
    (),
    ServiceError,
>)
    requires
        old(store).wf(),
    ensures
        final(store).wf(),
        r is Ok <==> contains_id(old(store).notes@, id),
        r is Err ==> *final(store) == *old(store) && r == Err::<(), ServiceError>(
            ServiceError::NotFound,
        ),
        final(store).index@ == old(store).index@,
        final(store).next_id == old(store).next_id,
        final(store).dim == old(store).dim,
        final(store).notes@.len() == old(store).notes@.len(),
        forall|k: int|
            0 <= k < old(store).notes@.len() && old(store).notes@[k].id != id
                ==> final(store).notes@[k] == old(store).notes@[k],
        forall|k: int|
            0 <= k < old(store).notes@.len() && old(store).notes@[k].id == id
                ==> final(store).notes@[k] == (Note {
                id,
                content: content,
                created_at: old(store).notes@[k].created_at,
                updated_at: now,
            }),
{
    match store.update(id, content, now) {
        Ok(()) => Ok(()),
        Err(e) => Err(lift_store(e)),
    }
}

/// Delete a note and its index entry in the same unit of work: afterwards
/// neither row carries the identifier.
///
/// Deleting an identifier that no note carries succeeds and changes nothing
/// — the operation is idempotent, so deleting twice equals deleting once.
/// The `Result` surface is kept for the command layer; in this model no
/// storage fault exists, so the call always succeeds.
pub fn delete_note(store: &mut NoteStore, id: u64) -> (r: Result<(), ServiceError>)
    requires
        old(store).wf(),
    ensures
        final(store).wf(),
        r == Ok::<(), ServiceError>(()),
        !contains_id(old(store).notes@, id) ==> *final(store) == *old(store),
        contains_id(old(store).notes@, id) ==> exists|k: int|
            {
                &&& 0 <= k < old(store).notes@.len()
                &&& old(store).notes@[k].id == id
                &&& final(store).notes@ == old(store).notes@.remove(k)
                &&& final(store).index@ == old(store).index@.remove(k)
            },
        !contains_id(final(store).notes@, id),
        !entry_contains_id(final(store).index@, id),
        final(store).next_id == old(store).next_id,
        final(store).dim == old(store).dim,
{
    let _ = store.delete(id);
    Ok(())
}

/// Executable form of `lift_embed_error`.
fn lift_embed(e: EmbedError) -> (r: ServiceError)
    ensures
        r == lift_embed_error(e),
{
    match e {
        EmbedError::WorkerUnavailable => ServiceError::WorkerUnavailable,
        EmbedError::InferenceFailure => ServiceError::InferenceFailure,
    }
}

/// Executable form of `lift_store_error`.
fn lift_store(e: StoreError) -> (r: ServiceError)
    ensures
        r == lift_store_error(e),
{
    match e {
        StoreError::NotFound => ServiceError::NotFound,
        StoreError::DimensionMismatch => ServiceError::DimensionMismatch,
        StoreError::IdSpaceExhausted => ServiceError::StorageExhausted,
    }
}

} // verus!
