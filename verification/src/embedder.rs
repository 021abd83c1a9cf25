//! The embedding worker protocol.
//!
//! One loaded model instance serves every caller. The model's inference call
//! is blocking and non-reentrant, so it runs on a dedicated worker thread;
//! async callers talk to it only through a bounded request queue with one
//! single-use reply channel per call. This module holds the verified
//! decisions of that protocol: admission to the queue (backpressure when it
//! is full, a distinct failure when the worker is gone), the strict
//! first-in-first-out order the worker serves, and the checks a reply must
//! pass before it is handed back (one embedding per input text, each of the
//! model's fixed dimension, in input order). The inference itself is the
//! unverified collaborator that produces the raw vectors.

use vstd::prelude::*;
use crate::embedding::Embedding;

verus! {

/// How an `encode` call can fail.
#[derive(Clone, Copy, Debug, PartialEq, Eq, Structural)]
pub enum EmbedError {
    /// The worker's thread has stopped; every pending and future call fails
    /// with this, rather than hanging.
    WorkerUnavailable,
    /// This one request failed (a model error, or a malformed reply); the
    /// worker keeps serving later requests.
    InferenceFailure,
}

/// One queued `encode` request: the batch of texts and the ticket that pairs
/// it with its single-use reply channel.
pub struct EmbedRequest {
    pub texts: Vec<String>,
    pub ticket: u64,
}

/// What submitting a request produced.
#[derive(Clone, Copy, Debug, PartialEq, Eq, Structural)]
pub enum SubmitOutcome {
    /// The request was queued under this ticket.
    Accepted(u64),
    /// The queue is full: the caller must wait and try again. The request is
    /// never dropped on the floor.
    MustWait,
    /// The worker has stopped; the call fails distinctly instead of waiting.
    WorkerStopped,
}

/// The bounded request queue feeding the one worker.
pub struct EmbedQueue {
    /// How many requests may wait at once; submitting beyond this blocks the
    /// caller (backpressure), it never discards the request.
    pub capacity: usize,
    /// Requests waiting for the worker, oldest first.
    pub pending: Vec<EmbedRequest>,
    /// The next ticket to hand out; tickets are never reused.
    pub next_ticket: u64,
    /// Whether the worker's thread is still serving.
    pub worker_alive: bool,
}

impl EmbedQueue {
    /// Queue sanity: within capacity, and tickets strictly increasing in
    /// queue order and below the next one to be issued — so every ticket is
    /// issued at most once and the queue order is submission order.
    pub open spec fn wf(self) -> bool {
        &&& self.pending@.len() <= self.capacity
        &&& forall|i: int, j: int|
            0 <= i < j < self.pending@.len() ==> self.pending@[i].ticket < self.pending@[j].ticket
        &&& forall|i: int|
            0 <= i < self.pending@.len() ==> (#[trigger] self.pending@[i]).ticket
                < self.next_ticket
    }

    /// An empty queue for a freshly spawned worker.
    pub fn new(capacity: usize) -> (r: EmbedQueue)
        requires
            capacity >= 1,
        ensures
            r.wf(),
            r.capacity == capacity,
            r.pending@ == Seq::<EmbedRequest>::empty(),
            r.next_ticket == 0,
            r.worker_alive,
    {
        EmbedQueue { capacity, pending: Vec::new(), next_ticket: 0, worker_alive: true }
    }

    /// Everything one admission decision did, relating the queue before and
    /// after to the outcome: a stopped worker or a full queue leaves the
    /// queue exactly as it was, otherwise the request joined the back under
    /// a fresh ticket.
    pub open spec fn submitted(
        pre: EmbedQueue,
        post: EmbedQueue,
        texts: Vec<String>,
        r: SubmitOutcome,
    ) -> bool {
        &&& (!pre.worker_alive ==> r == SubmitOutcome::WorkerStopped && post == pre)
        &&& (pre.worker_alive && pre.pending@.len() == pre.capacity ==> r
            == SubmitOutcome::MustWait && post == pre)
        &&& (pre.worker_alive && pre.pending@.len() < pre.capacity ==> {
            &&& r == SubmitOutcome::Accepted(pre.next_ticket)
            &&& post.pending@ == pre.pending@.push(
                (EmbedRequest { texts: texts, ticket: pre.next_ticket }),
            )
            &&& post.next_ticket == pre.next_ticket + 1
            &&& post.capacity == pre.capacity
            &&& post.worker_alive
        })
    }

    /// Admission decision for one `encode` call.
    ///
    /// A stopped worker fails the call distinctly; a full queue makes the
    /// caller wait; otherwise the request joins the back of the queue under a
    /// fresh ticket. In the two failure cases the queue is exactly as it was:
    /// backpressure, never loss.
    pub fn submit(&mut self, texts: Vec<String>) -> (r: SubmitOutcome)
        requires
            old(self).wf(),
            old(self).next_ticket < u64::MAX,
        ensures
            final(self).wf(),
            EmbedQueue::submitted(*old(self), *final(self), texts, r),
    {
        if !self.worker_alive {
            return SubmitOutcome::WorkerStopped;
        }
        if self.pending.len() == self.capacity {
            return SubmitOutcome::MustWait;
        }
        let ticket = self.next_ticket;
        self.pending.push(EmbedRequest { texts, ticket });
        self.next_ticket = self.next_ticket + 1;
        SubmitOutcome::Accepted(ticket)
    }

    /// The worker takes its next unit of work: always the oldest waiting
    /// request, so requests are served strictly in arrival order.
    pub fn take_next(&mut self) -> (r: Option<EmbedRequest>)
        requires
            old(self).wf(),
        ensures
            final(self).wf(),
            r is Some <==> old(self).pending@.len() > 0,
            r matches Some(req) ==> req == old(self).pending@[0] && final(self).pending@ == old(
                self,
            ).pending@.drop_first(),
            r is None ==> *final(self) == *old(self),
            final(self).capacity == old(self).capacity,
            final(self).next_ticket == old(self).next_ticket,
            final(self).worker_alive == old(self).worker_alive,
    {
        if self.pending.len() == 0 {
            return None;
        }
        let req = self.pending.remove(0);
        proof {
            assert(self.pending@ =~= old(self).pending@.drop_first());
        }
        Some(req)
    }

    /// Record that the worker's thread has terminated. From here on every
    /// submission fails with a distinct worker-unavailable outcome.
    pub fn mark_worker_stopped(&mut self)
        requires
            old(self).wf(),
        ensures
            final(self).wf(),
            !final(self).worker_alive,
            final(self).pending@ == old(self).pending@,
            final(self).capacity == old(self).capacity,
            final(self).next_ticket == old(self).next_ticket,
    {
        self.worker_alive = false;
    }
}

/// Check one reply from the model against the batch it answers: exactly one
/// embedding per input text, in input order, each of the model's dimension.
/// A reply that passes is handed back unchanged; one that does not fails that
/// request alone.
pub fn validate_reply(batch_len: usize, outputs: Vec<Embedding>, dim: usize) -> (r: Result<
    Vec<Embedding>,
    EmbedError,
>)
    ensures
        r is Ok <==> (outputs@.len() == batch_len && forall|i: int|
            0 <= i < outputs@.len() ==> (#[trigger] outputs@[i])@.len() == dim),
        r matches Ok(v) ==> v == outputs,
        r is Err ==> r == Err::<Vec<Embedding>, EmbedError>(EmbedError::InferenceFailure),
{
    if outputs.len() != batch_len {
        return Err(EmbedError::InferenceFailure);
    }
    let mut i: usize = 0;
    while i < outputs.len()
        invariant
            i <= outputs@.len(),
            forall|t: int| 0 <= t < i ==> (#[trigger] outputs@[t])@.len() == dim,
        decreases outputs@.len() - i,
    {
        if outputs[i].values.len() != dim {
            return Err(EmbedError::InferenceFailure);
        }
        i = i + 1;
    }
    Ok(outputs)
}

} // verus!
