//! The vector-indexed note store.
//!
//! A `NoteStore` keeps a primary table of notes and a derived vector index
//! keyed by the same identifiers. The store's well-formedness invariant ties
//! the two together: every note has exactly one index entry with its
//! identifier, every entry belongs to a live note (no dangling entries), and
//! every stored embedding has the store's fixed dimension. Each mutating
//! operation either performs its whole multi-row write or leaves the store
//! untouched — nothing is ever left half-written.

use vstd::prelude::*;
use vstd::pervasive::VecAdditionalExecFns;
use crate::embedding::{Embedding, sq_dist, MAX_DIM};

verus! {

/// A stored note: stable identifier, text content and both timestamps.
#[derive(Debug)]
pub struct Note {
    pub id: u64,
    pub content: String,
    pub created_at: u64,
    pub updated_at: u64,
}

impl Clone for Note {
    fn clone(&self) -> (r: Self)
        ensures
            r == *self,
    {
        Note {
            id: self.id,
            content: self.content.clone(),
            created_at: self.created_at,
            updated_at: self.updated_at,
        }
    }
}

/// A shadow record holding the embedding of one note, keyed by the note's
/// identifier.
#[derive(Debug)]
pub struct IndexEntry {
    pub id: u64,
    pub embedding: Embedding,
}

/// What a store operation can report.
#[derive(Clone, Copy, Debug, PartialEq, Eq, Structural)]
pub enum StoreError {
    /// The identifier names no live note.
    NotFound,
    /// An embedding's length differs from the store's dimension.
    DimensionMismatch,
    /// The identifier space is used up; no further note can be assigned one.
    IdSpaceExhausted,
}

/// No two notes share an identifier.
pub open spec fn distinct_note_ids(notes: Seq<Note>) -> bool {
    forall|i: int, j: int| 0 <= i < j < notes.len() ==> notes[i].id != notes[j].id
}

/// Some note carries this identifier.
pub open spec fn contains_id(notes: Seq<Note>, id: u64) -> bool {
    exists|i: int| 0 <= i < notes.len() && notes[i].id == id
}

/// Some index entry carries this identifier.
pub open spec fn entry_contains_id(index: Seq<IndexEntry>, id: u64) -> bool {
    exists|i: int| 0 <= i < index.len() && index[i].id == id
}

/// The first note carrying the identifier, if any.
pub open spec fn find_note(notes: Seq<Note>, id: u64) -> Option<Note>
    decreases notes.len(),
{
    if notes.len() == 0 {
        None
    } else if notes[0].id == id {
        Some(notes[0])
    } else {
        find_note(notes.drop_first(), id)
    }
}

/// The first index entry carrying the identifier, if any.
pub open spec fn find_entry(index: Seq<IndexEntry>, id: u64) -> Option<IndexEntry>
    decreases index.len(),
{
    if index.len() == 0 {
        None
    } else if index[0].id == id {
        Some(index[0])
    } else {
        find_entry(index.drop_first(), id)
    }
}

/// `find_note` succeeds exactly on the identifiers the table contains.
pub proof fn lemma_find_note_some(notes: Seq<Note>, id: u64)
    ensures
        find_note(notes, id) is Some <==> contains_id(notes, id),
        find_note(notes, id) matches Some(n) ==> n.id == id
            && exists|i: int| 0 <= i < notes.len() && notes[i] == n,
    decreases notes.len(),
{
    if notes.len() > 0 {
        if notes[0].id == id {
            assert(contains_id(notes, id));
        } else {
            lemma_find_note_some(notes.drop_first(), id);
            if contains_id(notes, id) {
                let i = choose|i: int| 0 <= i < notes.len() && notes[i].id == id;
                assert(notes.drop_first()[i - 1] == notes[i]);
                assert(contains_id(notes.drop_first(), id));
            }
            if find_note(notes.drop_first(), id) is Some {
                let n = find_note(notes.drop_first(), id)->Some_0;
                let i = choose|i: int|
                    0 <= i < notes.drop_first().len() && notes.drop_first()[i] == n;
                assert(notes[i + 1] == n);
            }
        }
    }
}

/// In a table with distinct identifiers, `find_note` returns the note at any
/// position whose identifier matches.
pub proof fn lemma_find_note_at(notes: Seq<Note>, k: int)
    requires
        distinct_note_ids(notes),
        0 <= k < notes.len(),
    ensures
        find_note(notes, notes[k].id) == Some(notes[k]),
    decreases notes.len(),
{
    if k > 0 {
        assert(notes[0].id != notes[k].id);
        assert(distinct_note_ids(notes.drop_first())) by {
            assert forall|i: int, j: int|
                0 <= i < j < notes.drop_first().len() implies notes.drop_first()[i].id
                != notes.drop_first()[j].id by {
                assert(notes.drop_first()[i] == notes[i + 1]);
                assert(notes.drop_first()[j] == notes[j + 1]);
            }
        }
        lemma_find_note_at(notes.drop_first(), k - 1);
        assert(notes.drop_first()[k - 1] == notes[k]);
    }
}

/// `find_entry` succeeds exactly on the identifiers the index contains, and
/// returns the entry at any matching position when identifiers are distinct.
pub proof fn lemma_find_entry_at(index: Seq<IndexEntry>, k: int)
    requires
        forall|i: int, j: int| 0 <= i < j < index.len() ==> index[i].id != index[j].id,
        0 <= k < index.len(),
    ensures
        find_entry(index, index[k].id) == Some(index[k]),
    decreases index.len(),
{
    if k > 0 {
        assert(index[0].id != index[k].id);
        assert forall|i: int, j: int|
            0 <= i < j < index.drop_first().len() implies index.drop_first()[i].id
            != index.drop_first()[j].id by {
            assert(index.drop_first()[i] == index[i + 1]);
            assert(index.drop_first()[j] == index[j + 1]);
        }
        lemma_find_entry_at(index.drop_first(), k - 1);
        assert(index.drop_first()[k - 1] == index[k]);
    }
}

/// The ranking key of the index entry at position `j`: its squared distance
/// to the query, with the identifier breaking ties. Smaller ranks first.
pub open spec fn key_at(s: NoteStore, j: int, q: Seq<i32>) -> (int, u64) {
    (sq_dist(s.index@[j].embedding@, q), s.index@[j].id)
}

/// The ranking key of the note with this identifier, through its index entry.
pub open spec fn note_key(s: NoteStore, id: u64, q: Seq<i32>) -> (int, u64) {
    match find_entry(s.index@, id) {
        Some(e) => (sq_dist(e.embedding@, q), e.id),
        None => (0, id),
    }
}

/// Ranking order on keys: by distance, then by identifier.
pub open spec fn key_le(a: (int, u64), b: (int, u64)) -> bool {
    a.0 < b.0 || (a.0 == b.0 && a.1 <= b.1)
}

/// Strict ranking order on keys.
pub open spec fn key_lt(a: (int, u64), b: (int, u64)) -> bool {
    a.0 < b.0 || (a.0 == b.0 && a.1 < b.1)
}

/// How many index positions rank strictly before `key` for this query: the
/// rank an entry with that key takes in the search order, ties included.
pub open spec fn count_ranked_before(index: Seq<IndexEntry>, q: Seq<i32>, key: (int, u64)) -> int
    decreases index.len(),
{
    if index.len() == 0 {
        0
    } else {
        count_ranked_before(index.drop_last(), q, key) + if key_lt(
            (sq_dist(index.last().embedding@, q), index.last().id),
            key,
        ) {
            1int
        } else {
            0int
        }
    }
}

/// Some returned note carries this identifier.
pub open spec fn result_has_id(rs: Seq<Note>, id: u64) -> bool {
    exists|p: int| 0 <= p < rs.len() && rs[p].id == id
}

/// Everything `search` promises of a successful result `rs` for query `q`
/// and the given limit: the results are notes of the store, resolved through
/// their own index entries, distinct, ranked nearest-first by `key_le`, they
/// rank at or before every entry left out, and an entry is only left out when
/// the limit is smaller than the index.
pub open spec fn search_post(s: NoteStore, q: Seq<i32>, limit: int, rs: Seq<Note>) -> bool {
    &&& rs.len() == (if limit <= s.index@.len() {
        limit
    } else {
        s.index@.len() as int
    })
    &&& forall|p: int| 0 <= p < rs.len() ==> entry_contains_id(s.index@, (#[trigger] rs[p]).id)
    &&& forall|p: int|
        0 <= p < rs.len() ==> find_note(s.notes@, (#[trigger] rs[p]).id) == Some(rs[p])
    &&& forall|p: int, p2: int| 0 <= p < p2 < rs.len() ==> rs[p].id != rs[p2].id
    &&& forall|p: int, p2: int|
        0 <= p < p2 < rs.len() ==> key_le(
            note_key(s, rs[p].id, q),
            note_key(s, rs[p2].id, q),
        )
    &&& forall|p: int, j: int|
        #![trigger rs[p], s.index@[j]]
        0 <= p < rs.len() && 0 <= j < s.index@.len() && !result_has_id(rs, s.index@[j].id)
            ==> key_le(note_key(s, rs[p].id, q), key_at(s, j, q))
    &&& forall|j: int|
        0 <= j < s.index@.len() && !result_has_id(rs, (#[trigger] s.index@[j]).id) ==> limit
            < s.index@.len()
}

/// How many positions of the sequence hold `true`.
pub open spec fn count_true(s: Seq<bool>) -> int
    decreases s.len(),
{
    if s.len() == 0 {
        0
    } else {
        count_true(s.drop_last()) + if s.last() {
            1int
        } else {
            0int
        }
    }
}

proof fn lemma_count_true_bounds(s: Seq<bool>)
    ensures
        0 <= count_true(s) <= s.len(),
    decreases s.len(),
{
    if s.len() > 0 {
        lemma_count_true_bounds(s.drop_last());
    }
}

proof fn lemma_count_true_full(s: Seq<bool>)
    requires
        forall|i: int| 0 <= i < s.len() ==> s[i],
    ensures
        count_true(s) == s.len(),
    decreases s.len(),
{
    if s.len() > 0 {
        lemma_count_true_full(s.drop_last());
    }
}

proof fn lemma_count_true_missing(s: Seq<bool>, i: int)
    requires
        0 <= i < s.len(),
        !s[i],
    ensures
        count_true(s) < s.len(),
    decreases s.len(),
{
    lemma_count_true_bounds(s.drop_last());
    if i < s.len() - 1 {
        lemma_count_true_missing(s.drop_last(), i);
    }
}

proof fn lemma_count_true_update(s: Seq<bool>, i: int)
    requires
        0 <= i < s.len(),
        !s[i],
    ensures
        count_true(s.update(i, true)) == count_true(s) + 1,
    decreases s.len(),
{
    let s2 = s.update(i, true);
    if i == s.len() - 1 {
        assert(s2.drop_last() =~= s.drop_last());
    } else {
        assert(s2.drop_last() =~= s.drop_last().update(i, true));
        lemma_count_true_update(s.drop_last(), i);
    }
}

/// Durable storage of notes and their index entries, with the cross-table
/// invariant enforced on every mutating operation.
pub struct NoteStore {
    /// The model's fixed embedding dimension.
    pub dim: usize,
    /// The next identifier the store will assign; identifiers are monotonic.
    pub next_id: u64,
    /// The primary note table.
    pub notes: Vec<Note>,
    /// The derived vector index, aligned with `notes` position by position.
    pub index: Vec<IndexEntry>,
}

impl NoteStore {
    /// The cross-table invariant: notes carry distinct identifiers below
    /// `next_id`, and the index holds exactly one entry per note, at the same
    /// position, with the note's identifier and an embedding of the store's
    /// dimension.
    pub open spec fn wf(self) -> bool {
        &&& self.dim <= MAX_DIM
        &&& distinct_note_ids(self.notes@)
        &&& forall|i: int| 0 <= i < self.notes@.len() ==> (#[trigger] self.notes@[i]).id < self.next_id
        &&& self.index@.len() == self.notes@.len()
        &&& forall|i: int|
            0 <= i < self.index@.len() ==> (#[trigger] self.index@[i]).id == self.notes@[i].id
        &&& forall|i: int|
            0 <= i < self.index@.len() ==> (#[trigger] self.index@[i]).embedding@.len() == self.dim
    }

    /// An empty store for embeddings of the given dimension.
    pub fn new(dim: usize) -> (r: NoteStore)
        requires
            dim <= MAX_DIM,
        ensures
            r.wf(),
            r.dim == dim,
            r.notes@ == Seq::<Note>::empty(),
            r.index@ == Seq::<IndexEntry>::empty(),
            r.next_id == 1,
    {
        NoteStore { dim, next_id: 1, notes: Vec::new(), index: Vec::new() }
    }

    /// What a successful insert did: the note got the next identifier and
    /// the given timestamps, and both rows — note and index entry, sharing
    /// that identifier and the insertion-time embedding — were appended as
    /// one unit.
    pub open spec fn inserted(
        pre: NoteStore,
        post: NoteStore,
        note: Note,
        content: String,
        embedding: Embedding,
        now: u64,
    ) -> bool {
        &&& note.id == pre.next_id
        &&& note.content == content
        &&& note.created_at == now
        &&& note.updated_at == now
        &&& post.notes@ == pre.notes@.push(note)
        &&& post.index@ == pre.index@.push((IndexEntry { id: note.id, embedding: embedding }))
        &&& post.next_id == pre.next_id + 1
        &&& post.dim == pre.dim
    }

    /// Write a note and its index entry as one atomic unit.
    ///
    /// On success the note receives the next identifier and both rows exist;
    /// on failure the store is exactly as it was — no half-written pair is
    /// ever visible.
    pub fn insert(&mut self, content: String, embedding: Embedding, now: u64) -> (r: Result<
        Note,
        StoreError,
    >)
        requires
            old(self).wf(),
        ensures
            final(self).wf(),
            r is Ok <==> (embedding@.len() == old(self).dim && old(self).next_id < u64::MAX),
            r matches Ok(note) ==> NoteStore::inserted(
                *old(self),
                *final(self),
                note,
                content,
                embedding,
                now,
            ),
            r is Err ==> *final(self) == *old(self),
            r matches Err(e) ==> (e == StoreError::DimensionMismatch <==> embedding@.len()
                != old(self).dim),
            r matches Err(e) ==> (e == StoreError::IdSpaceExhausted <==> (embedding@.len()
                == old(self).dim && old(self).next_id == u64::MAX)),
    {
        if embedding.values.len() != self.dim {
            return Err(StoreError::DimensionMismatch);
        }
        if self.next_id == u64::MAX {
            return Err(StoreError::IdSpaceExhausted);
        }
        let id = self.next_id;
        let note = Note { id, content, created_at: now, updated_at: now };
        let returned = note.clone();
        self.notes.push(note);
        self.index.push(IndexEntry { id, embedding });
        self.next_id = self.next_id + 1;
        proof {
            assert forall|i: int, j: int|
                0 <= i < j < self.notes@.len() implies self.notes@[i].id
                != self.notes@[j].id by {
                if j < self.notes@.len() - 1 {
                    assert(old(self).notes@[i].id != old(self).notes@[j].id);
                }
            }
        }
        Ok(returned)
    }

    /// All notes, in stable storage order.
    pub fn get_all(&self) -> (r: Vec<Note>)
        ensures
            r@ == self.notes@,
    {
        let mut r: Vec<Note> = Vec::new();
        let mut i: usize = 0;
        while i < self.notes.len()
            invariant
                i <= self.notes@.len(),
                r@ == self.notes@.take(i as int),
            decreases self.notes@.len() - i,
        {
            r.push(self.notes[i].clone());
            proof {
                assert(self.notes@.take(i + 1) =~= self.notes@.take(i as int).push(
                    self.notes@[i as int],
                ));
            }
            i = i + 1;
        }
        proof {
            assert(self.notes@.take(self.notes@.len() as int) =~= self.notes@);
        }
        r
    }

    /// Overwrite a note's content and update timestamp.
    ///
    /// The vector index is deliberately left untouched: search keeps ranking
    /// the note by the embedding computed at insertion time. This staleness
    /// is a documented property of the store, not an oversight.
    ///
    /// Updating an identifier that no note carries is reported as not found
    /// — unlike `delete`, whose absent case is already the desired end state,
    /// an update the caller asked for would be silently lost, and a lost
    /// write is a user-correctable problem worth surfacing.
    pub fn update(&mut self, id: u64, content: String, now: u64) -> (r: Result<(), StoreError>)
        requires
            old(self).wf(),
        ensures
            final(self).wf(),
            r is Ok <==> contains_id(old(self).notes@, id),
            r is Err ==> *final(self) == *old(self) && r == Err::<(), StoreError>(
                StoreError::NotFound,
            ),
            final(self).index@ == old(self).index@,
            final(self).next_id == old(self).next_id,
            final(self).dim == old(self).dim,
            final(self).notes@.len() == old(self).notes@.len(),
            forall|k: int|
                0 <= k < old(self).notes@.len() && old(self).notes@[k].id != id
                    ==> final(self).notes@[k] == old(self).notes@[k],
            forall|k: int|
                0 <= k < old(self).notes@.len() && old(self).notes@[k].id == id
                    ==> final(self).notes@[k] == (Note {
                    id,
                    content: content,
                    created_at: old(self).notes@[k].created_at,
                    updated_at: now,
                }),
    {
        let n = self.notes.len();
        let mut i: usize = 0;
        while i < n
            invariant
                *self == *old(self),
                old(self).wf(),
                n == self.notes@.len(),
                i <= n,
                forall|k: int| 0 <= k < i ==> (#[trigger] self.notes@[k]).id != id,
            decreases n - i,
        {
            if self.notes[i].id == id {
                let created_at = self.notes[i].created_at;
                self.notes.set(i, Note { id, content, created_at, updated_at: now });
                proof {
                    assert(contains_id(old(self).notes@, id)) by {
                        assert(old(self).notes@[i as int].id == id);
                    }
                    assert forall|k: int|
                        0 <= k < old(self).notes@.len() && old(self).notes@[k].id
                            == id implies self.notes@[k] == (Note {
                        id,
                        content: content,
                        created_at: old(self).notes@[k].created_at,
                        updated_at: now,
                    }) by {
                        if k != i {
                            assert(old(self).notes@[k].id != old(self).notes@[i as int].id);
                        }
                    }
                }
                return Ok(());
            }
            i = i + 1;
        }
        proof {
            if contains_id(old(self).notes@, id) {
                let k = choose|k: int|
                    0 <= k < old(self).notes@.len() && old(self).notes@[k].id == id;
                assert(false);
            }
        }
        Err(StoreError::NotFound)
    }

    /// Remove a note and its index entry in the same unit of work.
    ///
    /// Afterwards neither row carries the identifier, whether or not one did
    /// before: deleting an identifier that no note carries is a no-op, so
    /// deleting twice equals deleting once. The returned flag says whether a
    /// pair of rows was removed. A dangling index entry is never produced.
    pub fn delete(&mut self, id: u64) -> (removed: bool)
        requires
            old(self).wf(),
        ensures
            final(self).wf(),
            removed <==> contains_id(old(self).notes@, id),
            !removed ==> *final(self) == *old(self),
            removed ==> exists|k: int|
                {
                    &&& 0 <= k < old(self).notes@.len()
                    &&& old(self).notes@[k].id == id
                    &&& final(self).notes@ == old(self).notes@.remove(k)
                    &&& final(self).index@ == old(self).index@.remove(k)
                },
            !contains_id(final(self).notes@, id),
            !entry_contains_id(final(self).index@, id),
            final(self).next_id == old(self).next_id,
            final(self).dim == old(self).dim,
    {
        let n = self.notes.len();
        let mut i: usize = 0;
        while i < n
            invariant
                *self == *old(self),
                old(self).wf(),
                n == self.notes@.len(),
                i <= n,
                forall|k: int| 0 <= k < i ==> (#[trigger] self.notes@[k]).id != id,
            decreases n - i,
        {
            if self.notes[i].id == id {
                self.notes.remove(i);
                self.index.remove(i);
                proof {
                    let pre = old(self).notes@;
                    assert(contains_id(pre, id)) by {
                        assert(pre[i as int].id == id);
                    }
                    assert forall|k: int|
                        0 <= k < self.notes@.len() implies (#[trigger] self.notes@[k]).id
                        != id by {
                        if k < i {
                            assert(self.notes@[k] == pre[k]);
                        } else {
                            assert(self.notes@[k] == pre[k + 1]);
                            assert(pre[i as int].id == id);
                            assert(pre[k + 1].id != pre[i as int].id);
                        }
                    }
                    assert forall|k: int|
                        0 <= k < self.index@.len() implies (#[trigger] self.index@[k]).id
                        != id by {
                        assert(self.index@[k].id == self.notes@[k].id);
                    }
                    assert(!entry_contains_id(self.index@, id));
                    assert(0 <= (i as int) && (i as int) < pre.len() && pre[i as int].id == id
                        && self.notes@ == pre.remove(i as int)
                        && self.index@ == old(self).index@.remove(i as int));
                }
                return true;
            }
            i = i + 1;
        }
        proof {
            if contains_id(old(self).notes@, id) {
                let k = choose|k: int|
                    0 <= k < old(self).notes@.len() && old(self).notes@[k].id == id;
                assert(false);
            }
        }
        false
    }

    /// Find the `limit` index entries nearest to the query and resolve each
    /// to its note, nearest first. An entry whose note was deleted cannot
    /// appear: deletion removes both rows, and results are resolved through
    /// the note table.
    #[verifier::loop_isolation(false)]
    pub fn search(&self, query: &Embedding, limit: usize) -> (r: Result<Vec<Note>, StoreError>)
        requires
            self.wf(),
        ensures
            r is Ok <==> query@.len() == self.dim,
            r is Err ==> r == Err::<Vec<Note>, StoreError>(StoreError::DimensionMismatch),
            r matches Ok(rs) ==> search_post(*self, query@, limit as int, rs@),
    {
        if query.values.len() != self.dim {
            return Err(StoreError::DimensionMismatch);
        }
        let n = self.index.len();
        let ghost q = query@;

        let mut dists: Vec<i128> = Vec::new();
        let mut used: Vec<bool> = Vec::new();
        let mut j: usize = 0;
        while j < n
            invariant
                j <= n,
                dists@.len() == j,
                used@.len() == j,
                forall|t: int| 0 <= t < j ==> dists@[t] == sq_dist(self.index@[t].embedding@, q),
                forall|t: int| 0 <= t < j ==> !(#[trigger] used@[t]),
                count_true(used@) == 0,
            decreases n - j,
        {
            let d = self.index[j].embedding.squared_distance(query).unwrap();
            dists.push(d);
            let ghost prev_used = used@;
            used.push(false);
            j = j + 1;
            proof {
                assert(used@.drop_last() =~= prev_used);
            }
        }

        let m = if limit < n {
            limit
        } else {
            n
        };
        let mut rs: Vec<Note> = Vec::new();
        let ghost mut picks: Seq<int> = Seq::empty();

        while rs.len() < m
            invariant
                used@.len() == n,
                rs@.len() <= m,
                picks.len() == rs@.len(),
                count_true(used@) == picks.len(),
                forall|p: int| 0 <= p < picks.len() ==> 0 <= #[trigger] picks[p] < n,
                forall|p: int| 0 <= p < picks.len() ==> used@[#[trigger] picks[p]],
                forall|p: int, p2: int| 0 <= p < p2 < picks.len() ==> picks[p] != picks[p2],
                forall|t: int|
                    0 <= t < n && #[trigger] used@[t] ==> exists|p: int|
                        0 <= p < picks.len() && picks[p] == t,
                forall|p: int| 0 <= p < rs@.len() ==> #[trigger] rs@[p] == self.notes@[picks[p]],
                forall|p: int, p2: int|
                    0 <= p < p2 < picks.len() ==> key_le(
                        key_at(*self, picks[p], q),
                        key_at(*self, picks[p2], q),
                    ),
                forall|p: int, t: int|
                    0 <= p < picks.len() && 0 <= t < n && !used@[t] ==> key_le(
                        key_at(*self, #[trigger] picks[p], q),
                        #[trigger] key_at(*self, t, q),
                    ),
            decreases m - rs@.len(),
        {
            let mut best: usize = 0;
            let mut have: bool = false;
            let mut t: usize = 0;
            while t < n
                invariant
                    t <= n,
                    have ==> best < t && !used@[best as int],
                    have ==> forall|u: int|
                        0 <= u < t && !used@[u] ==> key_le(
                            key_at(*self, best as int, q),
                            #[trigger] key_at(*self, u, q),
                        ),
                    !have ==> forall|u: int| 0 <= u < t ==> #[trigger] used@[u],
                decreases n - t,
            {
                if !used[t] {
                    if !have {
                        best = t;
                        have = true;
                    } else {
                        let better = dists[t] < dists[best] || (dists[t] == dists[best]
                            && self.index[t].id < self.index[best].id);
                        if better {
                            best = t;
                        }
                    }
                }
                t = t + 1;
            }
            proof {
                if !have {
                    lemma_count_true_full(used@);
                    assert(false);
                }
            }
            let chosen = self.notes[best].clone();
            let ghost old_used = used@;
            let ghost old_picks = picks;
            used.set(best, true);
            rs.push(chosen);
            proof {
                picks = picks.push(best as int);
                lemma_count_true_update(old_used, best as int);
                assert forall|t2: int| 0 <= t2 < n && #[trigger] used@[t2] implies exists|p: int|
                    0 <= p < picks.len() && picks[p] == t2 by {
                    if t2 == best as int {
                        assert(picks[picks.len() - 1] == t2);
                    } else {
                        let p = choose|p: int| 0 <= p < old_picks.len() && old_picks[p] == t2;
                        assert(picks[p] == t2);
                    }
                }
                assert forall|p: int, p2: int| 0 <= p < p2 < picks.len() implies key_le(
                    key_at(*self, picks[p], q),
                    key_at(*self, picks[p2], q),
                ) by {
                    if p2 == picks.len() - 1 {
                        assert(!old_used[best as int]);
                        assert(key_le(key_at(*self, old_picks[p], q), key_at(*self, best as int, q)));
                    }
                }
                assert forall|p: int, t2: int|
                    0 <= p < picks.len() && 0 <= t2 < n && !used@[t2] implies key_le(
                    key_at(*self, #[trigger] picks[p], q),
                    #[trigger] key_at(*self, t2, q),
                ) by {
                    assert(!old_used[t2]);
                    if p < old_picks.len() {
                        assert(key_le(key_at(*self, old_picks[p], q), key_at(*self, t2, q)));
                    } else {
                        assert(picks[p] == best as int);
                    }
                }
            }
        }
        proof {
            assert forall|i: int, j2: int|
                0 <= i < j2 < self.index@.len() implies self.index@[i].id != self.index@[j2].id by {
                assert(self.index@[i].id == self.notes@[i].id);
                assert(self.index@[j2].id == self.notes@[j2].id);
            }
            assert forall|p: int| 0 <= p < rs@.len() implies entry_contains_id(
                self.index@,
                (#[trigger] rs@[p]).id,
            ) by {
                assert(self.index@[picks[p]].id == self.notes@[picks[p]].id);
                assert(self.index@[picks[p]].id == rs@[p].id);
            }
            assert forall|p: int| 0 <= p < rs@.len() implies find_note(
                self.notes@,
                (#[trigger] rs@[p]).id,
            ) == Some(rs@[p]) by {
                lemma_find_note_at(self.notes@, picks[p]);
            }
            assert forall|p: int, p2: int| 0 <= p < p2 < rs@.len() implies rs@[p].id
                != rs@[p2].id by {
                if picks[p] < picks[p2] {
                    assert(self.notes@[picks[p]].id != self.notes@[picks[p2]].id);
                } else {
                    assert(self.notes@[picks[p2]].id != self.notes@[picks[p]].id);
                }
            }
            assert forall|p: int| 0 <= p < rs@.len() implies note_key(*self, (#[trigger] rs@[p]).id, q)
                == key_at(*self, picks[p], q) by {
                lemma_find_entry_at(self.index@, picks[p]);
            }
            assert forall|j2: int|
                0 <= j2 < self.index@.len() && !result_has_id(
                    rs@,
                    (#[trigger] self.index@[j2]).id,
                ) implies !used@[j2] by {
                if used@[j2] {
                    let p = choose|p: int| 0 <= p < picks.len() && picks[p] == j2;
                    assert(rs@[p].id == self.index@[j2].id);
                }
            }
            assert forall|j2: int|
                0 <= j2 < self.index@.len() && !result_has_id(
                    rs@,
                    (#[trigger] self.index@[j2]).id,
                ) implies (limit as int) < self.index@.len() by {
                lemma_count_true_missing(used@, j2);
            }
        }
        Ok(rs)
    }
}

} // verus!
