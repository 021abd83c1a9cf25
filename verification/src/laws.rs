//! The system-wide guarantees, stated once and proved from the operations'
//! own contracts.

use vstd::prelude::*;
use crate::embedder::{EmbedQueue, SubmitOutcome};
use crate::embedding::{lemma_sq_dist_nonneg, lemma_sq_dist_self_zero, sq_dist, Embedding};
use crate::store::{
    contains_id, count_ranked_before, entry_contains_id, find_note, key_at, key_le, key_lt,
    lemma_find_entry_at, lemma_find_note_at, lemma_find_note_some, note_key, result_has_id,
    search_post, IndexEntry, Note, NoteStore,
};

verus! {

/// Dimension consistency: every embedding in a reply that passed validation
/// has the same, model-fixed length — whatever the texts were.
pub proof fn lemma_validated_dims_equal(v: Seq<Embedding>, dim: int, i: int, j: int)
    requires
        forall|t: int| 0 <= t < v.len() ==> (#[trigger] v[t])@.len() == dim,
        0 <= i < v.len(),
        0 <= j < v.len(),
    ensures
        v[i]@.len() == v[j]@.len(),
{
}

/// Order preservation across calls: the worker always takes the front of the
/// queue, and in a well-formed queue the front holds the oldest ticket, so
/// requests are served strictly in submission order.
pub proof fn lemma_front_is_oldest(q: EmbedQueue)
    requires
        q.wf(),
        q.pending@.len() > 0,
    ensures
        forall|i: int|
            0 <= i < q.pending@.len() ==> q.pending@[0].ticket <= (#[trigger] q.pending@[i]).ticket,
{
}

/// Backpressure, not loss: a submission against a full queue makes the
/// caller wait and leaves every queued request exactly where it was —
/// nothing is dropped and nothing silently fails.
pub proof fn lemma_backpressure_keeps_requests(
    pre: EmbedQueue,
    post: EmbedQueue,
    texts: Vec<String>,
    r: SubmitOutcome,
)
    requires
        pre.worker_alive,
        pre.pending@.len() == pre.capacity,
        EmbedQueue::submitted(pre, post, texts, r),
    ensures
        r == SubmitOutcome::MustWait,
        post.pending@ == pre.pending@,
        post == pre,
{
}

/// Insert atomicity, the success half: once an insert has committed, a
/// search querying with the very embedding that was stored retrieves the new
/// note, as soon as the limit admits the whole index — and the new note
/// ranks at distance zero, the best any entry can reach. (The failure half
/// is the insert contract itself: on any error the store is unchanged, so no
/// note and no index entry for it exist.)
pub proof fn lemma_inserted_note_retrievable(
    pre: NoteStore,
    post: NoteStore,
    note: Note,
    content: String,
    embedding: Embedding,
    now: u64,
    limit: int,
    rs: Seq<Note>,
)
    requires
        post.wf(),
        NoteStore::inserted(pre, post, note, content, embedding, now),
        limit >= post.index@.len(),
        search_post(post, embedding@, limit, rs),
    ensures
        exists|p: int| 0 <= p < rs.len() && rs[p] == note,
        note_key(post, note.id, embedding@).0 == 0,
        forall|j: int| 0 <= j < post.index@.len() ==> (#[trigger] key_at(post, j, embedding@)).0 >= 0,
{
    let k = post.notes@.len() - 1;
    assert(post.notes@[k] == note);
    assert(post.index@[k].id == note.id);
    if !result_has_id(rs, note.id) {
        assert(!result_has_id(rs, post.index@[k].id));
        assert(limit < post.index@.len());
        assert(false);
    }
    let p = choose|p: int| 0 <= p < rs.len() && rs[p].id == note.id;
    assert(find_note(post.notes@, rs[p].id) == Some(rs[p]));
    lemma_find_note_at(post.notes@, k);
    assert(rs[p] == note);
    lemma_find_entry_at(post.index@, k);
    lemma_sq_dist_self_zero(embedding@);
    assert forall|j: int|
        0 <= j < post.index@.len() implies (#[trigger] key_at(post, j, embedding@)).0 >= 0 by {
        lemma_sq_dist_nonneg(post.index@[j].embedding@, embedding@);
    }
}

/// Delete completeness, the search half: an identifier that no live note
/// carries is never returned by search, whatever the query and limit. The
/// delete contract already removes both the note and its index entry, so
/// this applies to every deleted identifier.
pub proof fn lemma_absent_id_never_returned(
    s: NoteStore,
    id: u64,
    q: Seq<i32>,
    limit: int,
    rs: Seq<Note>,
)
    requires
        s.wf(),
        !contains_id(s.notes@, id),
        search_post(s, q, limit, rs),
    ensures
        forall|p: int| 0 <= p < rs.len() ==> (#[trigger] rs[p]).id != id,
{
    assert forall|p: int| 0 <= p < rs.len() implies (#[trigger] rs[p]).id != id by {
        assert(find_note(s.notes@, rs[p].id) == Some(rs[p]));
        lemma_find_note_some(s.notes@, rs[p].id);
    }
}

proof fn lemma_entry_ids_distinct(s: NoteStore)
    requires
        s.wf(),
    ensures
        forall|i: int, j: int| 0 <= i < j < s.index@.len() ==> s.index@[i].id != s.index@[j].id,
{
    assert forall|i: int, j: int|
        0 <= i < j < s.index@.len() implies s.index@[i].id != s.index@[j].id by {
        assert(s.index@[i].id == s.notes@[i].id);
        assert(s.index@[j].id == s.notes@[j].id);
    }
}

proof fn lemma_result_ids_subset(
    s1: NoteStore,
    s2: NoteStore,
    q: Seq<i32>,
    limit: int,
    rs1: Seq<Note>,
    rs2: Seq<Note>,
)
    requires
        s1.wf(),
        s2.wf(),
        s2.index@ == s1.index@,
        search_post(s1, q, limit, rs1),
        search_post(s2, q, limit, rs2),
    ensures
        forall|id: u64| result_has_id(rs1, id) ==> result_has_id(rs2, id),
{
    broadcast use vstd::set::group_set_axioms;
    broadcast use vstd::seq_lib::seq_to_set_is_finite;

    lemma_entry_ids_distinct(s1);
    assert forall|id: u64| result_has_id(rs1, id) implies result_has_id(rs2, id) by {
        if !result_has_id(rs2, id) {
            let p = choose|p: int| 0 <= p < rs1.len() && rs1[p].id == id;
            assert(entry_contains_id(s1.index@, rs1[p].id));
            let j = choose|j: int| 0 <= j < s1.index@.len() && s1.index@[j].id == id;
            lemma_find_entry_at(s1.index@, j);
            let ids1 = rs1.map_values(|n: Note| n.id);
            let ids2 = rs2.map_values(|n: Note| n.id);
            assert(ids1.no_duplicates()) by {
                assert forall|i: int, i2: int|
                    0 <= i < ids1.len() && 0 <= i2 < ids1.len() && i != i2 implies ids1[i]
                    != ids1[i2] by {
                    if i < i2 {
                        assert(rs1[i].id != rs1[i2].id);
                    } else {
                        assert(rs1[i2].id != rs1[i].id);
                    }
                }
            }
            assert(ids2.no_duplicates()) by {
                assert forall|i: int, i2: int|
                    0 <= i < ids2.len() && 0 <= i2 < ids2.len() && i != i2 implies ids2[i]
                    != ids2[i2] by {
                    if i < i2 {
                        assert(rs2[i].id != rs2[i2].id);
                    } else {
                        assert(rs2[i2].id != rs2[i].id);
                    }
                }
            }
            ids1.unique_seq_to_set();
            ids2.unique_seq_to_set();
            if forall|id2: u64| #[trigger] result_has_id(rs2, id2) ==> result_has_id(rs1, id2) {
                assert forall|a: u64| ids2.to_set().contains(a) implies ids1.to_set().remove(
                    id,
                ).contains(a) by {
                    assert(ids2.contains(a));
                    let t = choose|t: int| 0 <= t < ids2.len() && ids2[t] == a;
                    assert(rs2[t].id == a);
                    assert(result_has_id(rs2, a));
                    assert(result_has_id(rs1, a));
                    let u = choose|u: int| 0 <= u < rs1.len() && rs1[u].id == a;
                    assert(ids1[u] == a);
                    assert(ids1.contains(a));
                }
                assert(ids1[p] == id);
                assert(ids1.contains(id));
                assert(ids1.to_set().contains(id));
                vstd::set_lib::lemma_len_subset(ids2.to_set(), ids1.to_set().remove(id));
                assert(false);
            }
            let id2 = choose|id2: u64|
                #[trigger] result_has_id(rs2, id2) && !result_has_id(rs1, id2);
            let p2 = choose|p2: int| 0 <= p2 < rs2.len() && rs2[p2].id == id2;
            assert(entry_contains_id(s2.index@, rs2[p2].id));
            let j2 = choose|j2: int| 0 <= j2 < s1.index@.len() && s1.index@[j2].id == id2;
            lemma_find_entry_at(s1.index@, j2);
            assert(s2.index@[j].id == id && s2.index@[j2].id == id2);
            assert(key_le(note_key(s1, rs1[p].id, q), key_at(s1, j2, q)));
            assert(key_le(note_key(s2, rs2[p2].id, q), key_at(s2, j, q)));
            assert(note_key(s1, id, q) == key_at(s1, j, q));
            assert(note_key(s2, id2, q) == note_key(s1, id2, q));
            assert(note_key(s1, id2, q) == key_at(s1, j2, q));
            assert(key_at(s2, j, q) == key_at(s1, j, q));
            assert(id == id2);
            assert(false);
        }
    }
}

proof fn lemma_result_ids_agree_upto(
    s1: NoteStore,
    s2: NoteStore,
    q: Seq<i32>,
    limit: int,
    rs1: Seq<Note>,
    rs2: Seq<Note>,
    p: int,
)
    requires
        s1.wf(),
        s2.wf(),
        s2.index@ == s1.index@,
        search_post(s1, q, limit, rs1),
        search_post(s2, q, limit, rs2),
        0 <= p <= rs1.len(),
    ensures
        forall|t: int| 0 <= t < p ==> rs1[t].id == rs2[t].id,
    decreases p,
{
    if p > 0 {
        lemma_result_ids_agree_upto(s1, s2, q, limit, rs1, rs2, p - 1);
        let t = p - 1;
        let a = rs1[t].id;
        let b = rs2[t].id;
        if a != b {
            lemma_result_ids_subset(s1, s2, q, limit, rs1, rs2);
            lemma_result_ids_subset(s2, s1, q, limit, rs2, rs1);
            lemma_entry_ids_distinct(s1);
            assert(result_has_id(rs1, a)) by {
                assert(rs1[t].id == a);
            }
            assert(result_has_id(rs2, b)) by {
                assert(rs2[t].id == b);
            }
            let pa = choose|pa: int| 0 <= pa < rs2.len() && rs2[pa].id == a;
            if pa < t {
                assert(rs1[pa].id == a);
                assert(false);
            }
            let pb = choose|pb: int| 0 <= pb < rs1.len() && rs1[pb].id == b;
            if pb < t {
                assert(rs2[pb].id == b);
                assert(false);
            }
            assert(pa > t && pb > t);
            assert(key_le(note_key(s2, rs2[t].id, q), note_key(s2, rs2[pa].id, q)));
            assert(key_le(note_key(s1, rs1[t].id, q), note_key(s1, rs1[pb].id, q)));
            assert(entry_contains_id(s1.index@, rs1[t].id));
            let ja = choose|ja: int| 0 <= ja < s1.index@.len() && s1.index@[ja].id == a;
            lemma_find_entry_at(s1.index@, ja);
            assert(entry_contains_id(s2.index@, rs2[t].id));
            let jb = choose|jb: int| 0 <= jb < s1.index@.len() && s1.index@[jb].id == b;
            lemma_find_entry_at(s1.index@, jb);
            assert(note_key(s2, a, q) == note_key(s1, a, q));
            assert(note_key(s2, b, q) == note_key(s1, b, q));
            assert(note_key(s1, a, q).1 == a);
            assert(note_key(s1, b, q).1 == b);
            assert(false);
        }
    }
}

/// Search is determined by its contract: any two results that satisfy the
/// search postcondition for the same store, query and limit are the same
/// sequence of notes. Together with the search contract itself, this pins
/// the ranked result down completely.
pub proof fn lemma_search_determined(
    s: NoteStore,
    q: Seq<i32>,
    limit: int,
    rs1: Seq<Note>,
    rs2: Seq<Note>,
)
    requires
        s.wf(),
        search_post(s, q, limit, rs1),
        search_post(s, q, limit, rs2),
    ensures
        rs1 == rs2,
{
    lemma_result_ids_agree_upto(s, s, q, limit, rs1, rs2, rs1.len() as int);
    assert forall|t: int| 0 <= t < rs1.len() implies rs1[t] == rs2[t] by {
        assert(rs1[t].id == rs2[t].id);
        assert(find_note(s.notes@, rs1[t].id) == Some(rs1[t]));
        assert(find_note(s.notes@, rs2[t].id) == Some(rs2[t]));
    }
    assert(rs1 =~= rs2);
}

/// The index positions whose key ranks strictly before `key` for query `q`.
spec fn ranked_before_set(index: Seq<IndexEntry>, q: Seq<i32>, key: (int, u64)) -> Set<int> {
    Set::new(
        |j: int|
            0 <= j < index.len() && key_lt((sq_dist(index[j].embedding@, q), index[j].id), key),
    )
}

proof fn lemma_count_ranked_before_card(index: Seq<IndexEntry>, q: Seq<i32>, key: (int, u64))
    ensures
        ranked_before_set(index, q, key).finite(),
        ranked_before_set(index, q, key).len() == count_ranked_before(index, q, key),
    decreases index.len(),
{
    broadcast use vstd::set::group_set_axioms;

    if index.len() == 0 {
        assert(ranked_before_set(index, q, key) =~= Set::<int>::empty());
    } else {
        let prev = index.drop_last();
        lemma_count_ranked_before_card(prev, q, key);
        let bp = ranked_before_set(prev, q, key);
        let b = ranked_before_set(index, q, key);
        let last = index.len() - 1;
        if key_lt((sq_dist(index.last().embedding@, q), index.last().id), key) {
            assert(b =~= bp.insert(last));
            assert(!bp.contains(last));
        } else {
            assert(b =~= bp);
        }
    }
}

/// Search reaches every rank the limit admits: an index entry whose rank for
/// the query — the number of entries ranking strictly before it, distance
/// ties broken by identifier — is below the limit always has its note in the
/// result, whatever else the index holds.
pub proof fn lemma_search_reaches_rank(
    s: NoteStore,
    q: Seq<i32>,
    limit: int,
    rs: Seq<Note>,
    k: int,
)
    requires
        s.wf(),
        search_post(s, q, limit, rs),
        0 <= k < s.index@.len(),
        count_ranked_before(s.index@, q, key_at(s, k, q)) < limit,
    ensures
        result_has_id(rs, s.index@[k].id),
{
    broadcast use vstd::set::group_set_axioms;
    broadcast use vstd::seq_lib::seq_to_set_is_finite;

    lemma_entry_ids_distinct(s);
    let kk = key_at(s, k, q);
    if !result_has_id(rs, s.index@[k].id) {
        assert(limit < s.index@.len());
        assert(rs.len() == limit);
        let js = Seq::new(
            rs.len() as nat,
            |p: int| choose|j: int| 0 <= j < s.index@.len() && s.index@[j].id == rs[p].id,
        );
        assert forall|p: int| 0 <= p < rs.len() implies 0 <= js[p] < s.index@.len()
            && s.index@[js[p]].id == rs[p].id by {
            assert(entry_contains_id(s.index@, rs[p].id));
        }
        assert forall|p: int| 0 <= p < rs.len() implies key_lt(
            (sq_dist(s.index@[js[p]].embedding@, q), s.index@[js[p]].id),
            kk,
        ) by {
            lemma_find_entry_at(s.index@, js[p]);
            assert(key_le(note_key(s, rs[p].id, q), key_at(s, k, q)));
            assert(rs[p].id != s.index@[k].id);
        }
        assert(js.no_duplicates()) by {
            assert forall|p1: int, p2: int|
                0 <= p1 < js.len() && 0 <= p2 < js.len() && p1 != p2 implies js[p1] != js[p2] by {
                if js[p1] == js[p2] {
                    assert(rs[p1].id == rs[p2].id);
                    if p1 < p2 {
                        assert(rs[p1].id != rs[p2].id);
                    } else {
                        assert(rs[p2].id != rs[p1].id);
                    }
                }
            }
        }
        js.unique_seq_to_set();
        lemma_count_ranked_before_card(s.index@, q, kk);
        let b = ranked_before_set(s.index@, q, kk);
        assert forall|x: int| js.to_set().contains(x) implies b.contains(x) by {
            let p = choose|p: int| 0 <= p < js.len() && js[p] == x;
            assert(key_lt((sq_dist(s.index@[js[p]].embedding@, q), s.index@[js[p]].id), kk));
        }
        vstd::set_lib::lemma_len_subset(js.to_set(), b);
        assert(false);
    }
}

/// Insert atomicity at full strength: the committed note's entry sits at
/// distance zero to a query made of its own embedding, and search retrieves
/// the note as soon as the limit exceeds the number of entries ranking
/// strictly before that entry — its rank among distance ties.
pub proof fn lemma_inserted_note_rank(
    pre: NoteStore,
    post: NoteStore,
    note: Note,
    content: String,
    embedding: Embedding,
    now: u64,
    limit: int,
    rs: Seq<Note>,
)
    requires
        post.wf(),
        NoteStore::inserted(pre, post, note, content, embedding, now),
        search_post(post, embedding@, limit, rs),
        count_ranked_before(post.index@, embedding@, ((0int, note.id))) < limit,
    ensures
        exists|p: int| 0 <= p < rs.len() && rs[p] == note,
{
    let k = post.index@.len() - 1;
    lemma_sq_dist_self_zero(embedding@);
    assert(key_at(post, k, embedding@) == (0int, note.id));
    lemma_search_reaches_rank(post, embedding@, limit, rs, k);
    let p = choose|p: int| 0 <= p < rs.len() && rs[p].id == post.index@[k].id;
    assert(find_note(post.notes@, rs[p].id) == Some(rs[p]));
    lemma_find_note_at(post.notes@, post.notes@.len() - 1);
    assert(rs[p] == note);
}

/// The documented staleness, made general: updating a note's content moves
/// no search result. An update leaves the vector index untouched, so a
/// search before and one after the update — same query, same limit — return
/// the same identifiers in the same order; only the content carried by a
/// returned note can differ, because ranking reads the index alone.
pub proof fn lemma_update_leaves_ranking(
    pre: NoteStore,
    post: NoteStore,
    q: Seq<i32>,
    limit: int,
    rs_pre: Seq<Note>,
    rs_post: Seq<Note>,
)
    requires
        pre.wf(),
        post.wf(),
        post.index@ == pre.index@,
        search_post(pre, q, limit, rs_pre),
        search_post(post, q, limit, rs_post),
    ensures
        rs_pre.len() == rs_post.len(),
        forall|t: int| 0 <= t < rs_pre.len() ==> rs_pre[t].id == rs_post[t].id,
{
    lemma_result_ids_agree_upto(pre, post, q, limit, rs_pre, rs_post, rs_pre.len() as int);
}

/// No dangling index: in every well-formed store — and every operation
/// returns the store well-formed — each index entry's identifier belongs to
/// a live note, and each note has an index entry with its identifier.
pub proof fn lemma_index_matches_notes(s: NoteStore)
    requires
        s.wf(),
    ensures
        forall|j: int|
            0 <= j < s.index@.len() ==> contains_id(s.notes@, (#[trigger] s.index@[j]).id),
        forall|i: int|
            0 <= i < s.notes@.len() ==> entry_contains_id(s.index@, (#[trigger] s.notes@[i]).id),
{
    assert forall|j: int| 0 <= j < s.index@.len() implies contains_id(
        s.notes@,
        (#[trigger] s.index@[j]).id,
    ) by {
        assert(s.notes@[j].id == s.index@[j].id);
    }
    assert forall|i: int| 0 <= i < s.notes@.len() implies entry_contains_id(
        s.index@,
        (#[trigger] s.notes@[i]).id,
    ) by {
        assert(s.index@[i].id == s.notes@[i].id);
    }
}

} // verus!
