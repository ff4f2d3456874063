//! Priority eval queue — where evaluations wait to be picked up by a scheduler
//! worker.
//!
//! Queue order is descending by priority, then FIFO within the same priority.
//! A dequeued evaluation is held *in flight* until it is acknowledged (done)
//! or negatively acknowledged (re-queued, up to [`MAX_DEQUEUE`] deliveries in
//! all). Evaluations that could not be placed can be parked as *blocked* and
//! re-queued in bulk when capacity changes.
use crate::error::{Error, Result};
use crate::eval::Evaluation;
use crate::text::concat;
use vstd::prelude::*;

verus! {

/// How many times an evaluation is delivered before a negative
/// acknowledgement drops it instead of re-queueing it.
pub const MAX_DEQUEUE: u32 = 3;

/// A pending evaluation with its insertion number and past deliveries.
#[derive(Debug)]
pub struct QueuedEval {
    /// Insertion counter; orders evaluations of equal priority.
    pub seq: u64,
    /// How many times this evaluation has been handed out before.
    pub deliveries: u32,
    /// The evaluation.
    pub eval: Evaluation,
}

/// An evaluation handed out and awaiting acknowledgement.
#[derive(Debug)]
pub struct InFlightEval {
    /// How many times this evaluation has been handed out, this one included.
    pub deliveries: u32,
    /// The evaluation.
    pub eval: Evaluation,
}

/// The abstract content of a queue.
pub struct QueueModel {
    /// Pending evaluations, in storage order.
    pub pending: Seq<QueuedEval>,
    /// Evaluations handed out and not yet acknowledged.
    pub in_flight: Seq<InFlightEval>,
    /// Parked evaluations, in the order they were parked.
    pub blocked: Seq<Evaluation>,
    /// The insertion number the next queued evaluation receives.
    pub next_seq: u64,
}

/// Whether `a` leaves the queue before `b`: higher priority first, then the
/// earlier insertion.
pub open spec fn ahead(a: QueuedEval, b: QueuedEval) -> bool {
    a.eval.priority > b.eval.priority || (a.eval.priority == b.eval.priority && a.seq < b.seq)
}

/// Whether position `i` holds the evaluation that leaves next.
pub open spec fn is_next(ps: Seq<QueuedEval>, i: int) -> bool {
    0 <= i < ps.len() && forall|j: int| 0 <= j < ps.len() && j != i ==> ahead(ps[i], #[trigger] ps[j])
}

/// Internal consistency of a queue's content.
pub open spec fn queue_wf(m: QueueModel) -> bool {
    &&& forall|i: int, j: int| 0 <= i < m.pending.len() && 0 <= j < m.pending.len() && i != j ==> (#[trigger] m.pending[i]).seq != (#[trigger] m.pending[j]).seq
    &&& forall|i: int| 0 <= i < m.pending.len() ==> (#[trigger] m.pending[i]).seq < m.next_seq
    &&& forall|i: int| 0 <= i < m.pending.len() ==> (#[trigger] m.pending[i]).deliveries < MAX_DEQUEUE
    &&& forall|i: int| 0 <= i < m.in_flight.len() ==> (#[trigger] m.in_flight[i]).deliveries <= MAX_DEQUEUE
}

/// First in-flight position from `k` on whose evaluation has id `id`.
pub open spec fn first_in_flight(fs: Seq<InFlightEval>, id: Seq<char>, k: int) -> Option<int>
    decreases fs.len() - k,
{
    if k < 0 || k >= fs.len() {
        None
    } else if fs[k].eval.id@ == id {
        Some(k)
    } else {
        first_in_flight(fs, id, k + 1)
    }
}

/// The content after the pending entry at `i` is handed out.
pub open spec fn dequeued(m: QueueModel, i: int) -> QueueModel {
    QueueModel {
        pending: m.pending.remove(i),
        in_flight: m.in_flight.push(
            InFlightEval { deliveries: (m.pending[i].deliveries + 1) as u32, eval: m.pending[i].eval },
        ),
        ..m
    }
}

/// The content after acknowledging `id`: its first in-flight entry leaves,
/// if there is one.
pub open spec fn acked(m: QueueModel, id: Seq<char>) -> QueueModel {
    match first_in_flight(m.in_flight, id, 0) {
        Some(i) => QueueModel { in_flight: m.in_flight.remove(i), ..m },
        None => m,
    }
}

/// The content after handing `id` back: its first in-flight entry is
/// dropped once it has been delivered [`MAX_DEQUEUE`] times, and otherwise
/// re-queued unless the insertion counter is exhausted.
pub open spec fn nacked(m: QueueModel, id: Seq<char>) -> QueueModel {
    match first_in_flight(m.in_flight, id, 0) {
        None => m,
        Some(i) => {
            let f = m.in_flight[i];
            if f.deliveries >= MAX_DEQUEUE {
                QueueModel { in_flight: m.in_flight.remove(i), ..m }
            } else if m.next_seq == u64::MAX {
                m
            } else {
                QueueModel {
                    pending: m.pending.push(QueuedEval { seq: m.next_seq, deliveries: f.deliveries, eval: f.eval }),
                    in_flight: m.in_flight.remove(i),
                    blocked: m.blocked,
                    next_seq: (m.next_seq + 1) as u64,
                }
            }
        },
    }
}

/// The content after queueing `e` with the next insertion number.
pub open spec fn enqueued(m: QueueModel, e: Evaluation) -> QueueModel {
    QueueModel {
        pending: m.pending.push(QueuedEval { seq: m.next_seq, deliveries: 0, eval: e }),
        next_seq: (m.next_seq + 1) as u64,
        ..m
    }
}

/// The queue entries `blocked` become when re-queued from insertion number `base` on.
pub open spec fn requeued(blocked: Seq<Evaluation>, base: u64) -> Seq<QueuedEval> {
    Seq::new(blocked.len(), |i: int| QueuedEval { seq: (base + i) as u64, deliveries: 0, eval: blocked[i] })
}

/// The content after queuing `es` in order.
pub open spec fn enqueued_all(m: QueueModel, es: Seq<Evaluation>) -> QueueModel
    decreases es.len(),
{
    if es.len() == 0 {
        m
    } else {
        enqueued(enqueued_all(m, es.drop_last()), es.last())
    }
}

/// Queuing into a queue with nothing pending numbers the evaluations in the
/// order they were queued: the pending entries are `es`, in order, each with
/// the next insertion number.
pub proof fn law_enqueue_numbers_in_order(m: QueueModel, es: Seq<Evaluation>)
    requires
        m.pending.len() == 0,
        m.next_seq + es.len() <= u64::MAX,
    ensures
        enqueued_all(m, es).pending == requeued(es, m.next_seq),
        enqueued_all(m, es).next_seq == m.next_seq + es.len(),
    decreases es.len(),
{
    if es.len() > 0 {
        law_enqueue_numbers_in_order(m, es.drop_last());
        assert(enqueued_all(m, es).pending =~= requeued(es, m.next_seq));
    }
}

/// A run of dequeues: `qs[t + 1]` is `qs[t]` once the entry at `is[t]`,
/// the next to leave, is handed out.
pub open spec fn dequeue_run(qs: Seq<QueueModel>, is: Seq<int>) -> bool {
    &&& qs.len() == is.len() + 1
    &&& forall|t: int|
        0 <= t < is.len() ==> #[trigger] is_next(qs[t].pending, is[t]) && qs[t + 1] == dequeued(qs[t], is[t])
}

/// What is pending later in a run was pending earlier.
proof fn lemma_run_shrinks(qs: Seq<QueueModel>, is: Seq<int>, t: int, u: int)
    requires
        dequeue_run(qs, is),
        0 <= t <= u <= is.len(),
    ensures
        forall|y: QueuedEval| qs[u].pending.contains(y) ==> qs[t].pending.contains(y),
    decreases u - t,
{
    if t < u {
        lemma_run_shrinks(qs, is, t, u - 1);
        assert(is_next(qs[u - 1].pending, is[u - 1]));
        let ps = qs[u - 1].pending;
        let i = is[u - 1];
        assert forall|y: QueuedEval| qs[u].pending.contains(y) implies qs[t].pending.contains(y) by {
            let cur = qs[u].pending;
            let j = choose|j: int| 0 <= j < cur.len() && #[trigger] cur[j] == y;
            if j < i {
                assert(ps[j] == y);
            } else {
                assert(ps[j + 1] == y);
            }
            assert(ps.contains(y));
        }
    }
}

/// The entry handed out at step `t` is ahead of everything still pending
/// after it.
proof fn lemma_run_head(qs: Seq<QueueModel>, is: Seq<int>, t: int)
    requires
        dequeue_run(qs, is),
        0 <= t < is.len(),
    ensures
        forall|y: QueuedEval| qs[t + 1].pending.contains(y) ==> ahead(qs[t].pending[is[t]], y),
{
    assert(is_next(qs[t].pending, is[t]));
    let ps = qs[t].pending;
    let i = is[t];
    assert forall|y: QueuedEval| qs[t + 1].pending.contains(y) implies ahead(ps[i], y) by {
        let nxt = qs[t + 1].pending;
        let j = choose|j: int| 0 <= j < nxt.len() && #[trigger] nxt[j] == y;
        if j < i {
            assert(ps[j] == y);
            assert(ahead(ps[i], ps[j]));
        } else {
            assert(ps[j + 1] == y);
            assert(ahead(ps[i], ps[j + 1]));
        }
    }
}

/// Dequeues hand evaluations out highest priority first and, within a
/// priority, in insertion order: every entry a run hands out was pending at
/// its start and is ahead of each entry handed out after it, and every
/// dequeue takes exactly one entry. With [`law_enqueue_numbers_in_order`],
/// evaluations queued into an empty queue leave in the stable order of
/// their priorities, highest first.
pub proof fn law_dequeue_order(qs: Seq<QueueModel>, is: Seq<int>)
    requires
        dequeue_run(qs, is),
    ensures
        forall|t: int, u: int|
            0 <= t < u < is.len() ==> ahead(#[trigger] qs[t].pending[is[t]], #[trigger] qs[u].pending[is[u]]),
        forall|t: int| 0 <= t < is.len() ==> qs[0].pending.contains(#[trigger] qs[t].pending[is[t]]),
        qs[is.len() as int].pending.len() + is.len() == qs[0].pending.len(),
    decreases is.len(),
{
    assert forall|t: int, u: int| 0 <= t < u < is.len() implies ahead(
        #[trigger] qs[t].pending[is[t]],
        #[trigger] qs[u].pending[is[u]],
    ) by {
        assert(is_next(qs[u].pending, is[u]));
        assert(qs[u].pending.contains(qs[u].pending[is[u]]));
        lemma_run_shrinks(qs, is, t + 1, u);
        lemma_run_head(qs, is, t);
    }
    assert forall|t: int| 0 <= t < is.len() implies qs[0].pending.contains(#[trigger] qs[t].pending[is[t]]) by {
        assert(is_next(qs[t].pending, is[t]));
        assert(qs[t].pending.contains(qs[t].pending[is[t]]));
        lemma_run_shrinks(qs, is, 0, t);
    }
    if is.len() > 0 {
        let k = is.len() - 1;
        law_dequeue_order(qs.take(k + 1), is.take(k));
        assert(qs.take(k + 1)[k] == qs[k]);
        assert(qs.take(k + 1)[0] == qs[0]);
        assert(is_next(qs[k].pending, is[k]));
    }
}

/// Evaluations queued into a queue with nothing pending leave in the stable
/// order of their priorities: dequeuing as many times as there are
/// evaluations hands every one out, the `t`-th being `es[pos]` where `pos`
/// is its queuing position (the insertion number less the first one), and
/// of two handed out one after the other the earlier has the higher
/// priority, or the same priority and was queued first.
pub proof fn law_queue_is_stable_priority_sort(m: QueueModel, es: Seq<Evaluation>, qs: Seq<QueueModel>, is: Seq<int>)
    requires
        m.pending.len() == 0,
        m.next_seq + es.len() <= u64::MAX,
        qs.len() > 0,
        qs[0] == enqueued_all(m, es),
        dequeue_run(qs, is),
        is.len() == es.len(),
    ensures
        qs[is.len() as int].pending.len() == 0,
        forall|t: int|
            0 <= t < is.len() ==> {
                let x = #[trigger] qs[t].pending[is[t]];
                &&& 0 <= x.seq - m.next_seq < es.len()
                &&& x.eval == es[x.seq - m.next_seq]
            },
        forall|t: int, u: int|
            0 <= t < u < is.len() ==> {
                let a = (#[trigger] qs[t].pending[is[t]]).seq - m.next_seq;
                let b = (#[trigger] qs[u].pending[is[u]]).seq - m.next_seq;
                es[a].priority > es[b].priority || (es[a].priority == es[b].priority && a < b)
            },
{
    law_enqueue_numbers_in_order(m, es);
    law_dequeue_order(qs, is);
    let base = m.next_seq;
    let ps = requeued(es, base);
    assert forall|t: int| 0 <= t < is.len() implies {
        let x = #[trigger] qs[t].pending[is[t]];
        &&& 0 <= x.seq - m.next_seq < es.len()
        &&& x.eval == es[x.seq - m.next_seq]
    } by {
        let x = qs[t].pending[is[t]];
        assert(ps.contains(x));
        let j = choose|j: int| 0 <= j < ps.len() && ps[j] == x;
        assert(ps[j].seq == base + j);
    }
    assert forall|t: int, u: int| 0 <= t < u < is.len() implies {
        let a = (#[trigger] qs[t].pending[is[t]]).seq - m.next_seq;
        let b = (#[trigger] qs[u].pending[is[u]]).seq - m.next_seq;
        es[a].priority > es[b].priority || (es[a].priority == es[b].priority && a < b)
    } by {
        let x = qs[t].pending[is[t]];
        let y = qs[u].pending[is[u]];
        assert(ps.contains(x));
        assert(ps.contains(y));
        let j = choose|j: int| 0 <= j < ps.len() && ps[j] == x;
        let k = choose|k: int| 0 <= k < ps.len() && ps[k] == y;
        assert(ps[j].seq == base + j && ps[k].seq == base + k);
        assert(ahead(x, y));
    }
}

/// A later insertion of equal or lower priority never leaves before an
/// earlier one: after `e` is queued, every evaluation already pending with at
/// least its priority is ahead of it.
pub proof fn law_fifo_within_priority(m: QueueModel, e: Evaluation)
    requires
        queue_wf(m),
        m.next_seq < u64::MAX,
    ensures
        queue_wf(enqueued(m, e)),
        forall|i: int| 0 <= i < m.pending.len() && (#[trigger] m.pending[i]).eval.priority >= e.priority ==> ahead(
            enqueued(m, e).pending[i],
            enqueued(m, e).pending.last(),
        ),
{
    let m2 = enqueued(m, e);
    assert forall|i: int| 0 <= i < m2.pending.len() implies (#[trigger] m2.pending[i]).seq < m2.next_seq by {
        if i < m.pending.len() {
            assert(m2.pending[i] == m.pending[i]);
        }
    }
    assert forall|i: int, j: int| 0 <= i < m2.pending.len() && 0 <= j < m2.pending.len() && i != j
        implies (#[trigger] m2.pending[i]).seq != (#[trigger] m2.pending[j]).seq by {
        if i < m.pending.len() {
            assert(m2.pending[i] == m.pending[i]);
        }
        if j < m.pending.len() {
            assert(m2.pending[j] == m.pending[j]);
        }
    }
    assert forall|i: int| 0 <= i < m2.pending.len() implies (#[trigger] m2.pending[i]).deliveries < MAX_DEQUEUE by {
        if i < m.pending.len() {
            assert(m2.pending[i] == m.pending[i]);
        }
    }
    assert forall|i: int| 0 <= i < m.pending.len() && (#[trigger] m.pending[i]).eval.priority >= e.priority implies ahead(
        m2.pending[i],
        m2.pending.last(),
    ) by {
        assert(m2.pending[i] == m.pending[i]);
    }
}

/// A thread-unsafe priority queue of evaluations (share it behind a lock).
#[derive(Debug)]
pub struct EvalQueue {
    /// Pending evaluations.
    pending: Vec<QueuedEval>,
    /// Evaluations handed out and awaiting acknowledgement.
    in_flight: Vec<InFlightEval>,
    /// Evaluations parked until capacity changes.
    blocked: Vec<Evaluation>,
    /// Insertion counter for the next queued evaluation.
    next_seq: u64,
}

impl EvalQueue {
    /// The queue's abstract content.
    pub closed spec fn model(&self) -> QueueModel {
        QueueModel { pending: self.pending@, in_flight: self.in_flight@, blocked: self.blocked@, next_seq: self.next_seq }
    }

    #[verifier::type_invariant]
    closed spec fn inv(&self) -> bool {
        queue_wf(self.model())
    }

    /// The queue is internally consistent (a no-op at run time).
    pub fn check_wf(&self)
        ensures
            queue_wf(self.model()),
    {
        proof {
            use_type_invariant(self);
        }
    }

    /// Create a new empty queue.
    pub fn new() -> (r: Self)
        ensures
            r.model().pending.len() == 0,
            r.model().in_flight.len() == 0,
            r.model().blocked.len() == 0,
            r.model().next_seq == 0,
    {
        EvalQueue { pending: Vec::new(), in_flight: Vec::new(), blocked: Vec::new(), next_seq: 0 }
    }

    /// Take the content out, leaving an empty queue behind.
    fn take(&mut self) -> (r: (Vec<QueuedEval>, Vec<InFlightEval>, Vec<Evaluation>, u64))
        ensures
            queue_wf(old(self).model()),
            r.0@ == old(self).model().pending,
            r.1@ == old(self).model().in_flight,
            r.2@ == old(self).model().blocked,
            r.3 == old(self).model().next_seq,
    {
        proof {
            use_type_invariant(&*self);
        }
        let mut q = EvalQueue::new();
        std::mem::swap(&mut q, self);
        proof {
            use_type_invariant(&q);
        }
        let EvalQueue { pending, in_flight, blocked, next_seq } = q;
        (pending, in_flight, blocked, next_seq)
    }

    /// Push an evaluation onto the queue. The caller should have validated
    /// it and set its status to `Pending`.
    ///
    /// # Errors
    ///
    /// Returns a `Runtime` error, leaving the queue unchanged, when the
    /// insertion counter is exhausted.
    pub fn enqueue(&mut self, eval: Evaluation) -> (r: Result<()>)
        ensures
            old(self).model().next_seq < u64::MAX ==> r is Ok && final(self).model() == enqueued(old(self).model(), eval),
            old(self).model().next_seq == u64::MAX ==> (r matches Err(e) && e.is_runtime(
                "eval queue sequence exhausted"@,
            )) && final(self).model() == old(self).model(),
    {
        proof {
            use_type_invariant(&*self);
        }
        if self.next_seq == u64::MAX {
            proof {
                reveal_strlit("eval queue sequence exhausted");
            }
            return Err(Error::Runtime(String::from_str("eval queue sequence exhausted")));
        }
        let (mut pending, in_flight, blocked, next_seq) = self.take();
        proof {
            law_fifo_within_priority(
                QueueModel { pending: pending@, in_flight: in_flight@, blocked: blocked@, next_seq },
                eval,
            );
        }
        pending.push(QueuedEval { seq: next_seq, deliveries: 0, eval });
        *self = EvalQueue { pending, in_flight, blocked, next_seq: next_seq + 1 };
        Ok(())
    }

    /// Dequeue the pending evaluation that is next in order (highest priority,
    /// then oldest), holding it in flight. Returns `None` when nothing is
    /// pending.
    ///
    /// # Errors
    ///
    /// Never fails; the `Result` keeps the signature of a shared queue.
    pub fn dequeue(&mut self) -> (r: Result<Option<Evaluation>>)
        ensures
            r is Ok,
            old(self).model().pending.len() == 0 ==> (r matches Ok(None)) && final(self).model() == old(self).model(),
            old(self).model().pending.len() > 0 ==> exists|i: int| #[trigger] is_next(old(self).model().pending, i)
                && (r matches Ok(Some(x)) && x == old(self).model().pending[i].eval) && final(self).model() == (QueueModel {
                pending: old(self).model().pending.remove(i),
                in_flight: old(self).model().in_flight.push(
                    InFlightEval {
                        deliveries: (old(self).model().pending[i].deliveries + 1) as u32,
                        eval: old(self).model().pending[i].eval,
                    },
                ),
                ..old(self).model()
            }),
    {
        proof {
            use_type_invariant(&*self);
        }
        if self.pending.len() == 0 {
            return Ok(None);
        }
        let (mut pending, mut in_flight, blocked, next_seq) = self.take();
        let ghost ps = pending@;
        let mut best: usize = 0;
        let mut i: usize = 1;
        while i < pending.len()
            invariant
                ps == pending@,
                ps.len() > 0,
                best < i <= ps.len(),
                forall|a: int, b: int| 0 <= a < ps.len() && 0 <= b < ps.len() && a != b ==> (#[trigger] ps[a]).seq != (#[trigger] ps[b]).seq,
                forall|j: int| 0 <= j < i && j != best ==> ahead(ps[best as int], #[trigger] ps[j]),
            decreases ps.len() - i,
        {
            let pi = pending[i].eval.priority;
            let pb = pending[best].eval.priority;
            if pi > pb || (pi == pb && pending[i].seq < pending[best].seq) {
                best = i;
            }
            i = i + 1;
        }
        assert(is_next(ps, best as int));
        let QueuedEval { seq: _, deliveries, eval } = pending.remove(best);
        let out = eval.clone();
        in_flight.push(InFlightEval { deliveries: deliveries + 1, eval });
        proof {
            let m = QueueModel { pending: pending@, in_flight: in_flight@, blocked: blocked@, next_seq };
            assert forall|a: int, b: int| 0 <= a < m.pending.len() && 0 <= b < m.pending.len() && a != b
                implies (#[trigger] m.pending[a]).seq != (#[trigger] m.pending[b]).seq by {
                let oa = if a < best { a } else { a + 1 };
                let ob = if b < best { b } else { b + 1 };
                assert(m.pending[a] == ps[oa]);
                assert(m.pending[b] == ps[ob]);
            }
            assert forall|a: int| 0 <= a < m.pending.len() implies (#[trigger] m.pending[a]).seq < m.next_seq
                && m.pending[a].deliveries < MAX_DEQUEUE by {
                let oa = if a < best { a } else { a + 1 };
                assert(m.pending[a] == ps[oa]);
            }
            assert forall|a: int| 0 <= a < m.in_flight.len() implies (#[trigger] m.in_flight[a]).deliveries <= MAX_DEQUEUE by {
                if a < m.in_flight.len() - 1 {
                    assert(m.in_flight[a] == old(self).model().in_flight[a]);
                }
            }
        }
        *self = EvalQueue { pending, in_flight, blocked, next_seq };
        Ok(Some(out))
    }

    /// Position of the first in-flight evaluation with id `id`.
    fn find_in_flight(in_flight: &Vec<InFlightEval>, id: &str) -> (r: Option<usize>)
        ensures
            match r {
                Some(i) => first_in_flight(in_flight@, id@, 0) == Some(i as int) && i < in_flight@.len(),
                None => first_in_flight(in_flight@, id@, 0) is None,
            },
    {
        let mut i: usize = 0;
        while i < in_flight.len()
            invariant
                i <= in_flight@.len(),
                first_in_flight(in_flight@, id@, 0) == first_in_flight(in_flight@, id@, i as int),
            decreases in_flight@.len() - i,
        {
            if crate::text::str_eq(in_flight[i].eval.id.as_str(), id) {
                return Some(i);
            }
            i = i + 1;
        }
        None
    }

    /// Acknowledge an in-flight evaluation: it is done and leaves the queue.
    ///
    /// # Errors
    ///
    /// Returns a `Runtime` error, leaving the queue unchanged, when no
    /// evaluation with that id is in flight.
    pub fn ack(&mut self, id: &str) -> (r: Result<()>)
        ensures
            match first_in_flight(old(self).model().in_flight, id@, 0) {
                Some(i) => r is Ok && final(self).model() == (QueueModel {
                    in_flight: old(self).model().in_flight.remove(i),
                    ..old(self).model()
                }),
                None => (r matches Err(e) && e.is_runtime("eval '"@ + id@ + "' is not in flight"@))
                    && final(self).model() == old(self).model(),
            },
    {
        proof {
            use_type_invariant(&*self);
        }
        match Self::find_in_flight(&self.in_flight, id) {
            None => {
                proof {
                    reveal_strlit("eval '");
                    reveal_strlit("' is not in flight");
                }
                let mut m = concat("eval '", id);
                m.append("' is not in flight");
                Err(Error::Runtime(m))
            },
            Some(i) => {
                let (pending, mut in_flight, blocked, next_seq) = self.take();
                let ghost fs = in_flight@;
                in_flight.remove(i);
                assert forall|a: int| 0 <= a < in_flight@.len() implies (#[trigger] in_flight@[a]).deliveries <= MAX_DEQUEUE by {
                    let oa = if a < i { a } else { a + 1 };
                    assert(in_flight@[a] == fs[oa]);
                }
                *self = EvalQueue { pending, in_flight, blocked, next_seq };
                Ok(())
            },
        }
    }

    /// Negatively acknowledge an in-flight evaluation: it is re-queued (as a
    /// new insertion, keeping its delivery count) unless it has been delivered
    /// [`MAX_DEQUEUE`] times, in which case it is dropped. Returns whether it
    /// was re-queued.
    ///
    /// # Errors
    ///
    /// Returns a `Runtime` error, leaving the queue unchanged, when no
    /// evaluation with that id is in flight, or it would be re-queued but the
    /// insertion counter is exhausted.
    pub fn nack(&mut self, id: &str) -> (r: Result<bool>)
        ensures
            match first_in_flight(old(self).model().in_flight, id@, 0) {
                None => (r matches Err(e) && e.is_runtime("eval '"@ + id@ + "' is not in flight"@))
                    && final(self).model() == old(self).model(),
                Some(i) => {
                    let f = old(self).model().in_flight[i];
                    let m = old(self).model();
                    if f.deliveries >= MAX_DEQUEUE {
                        (r matches Ok(b) && !b) && final(self).model() == (QueueModel { in_flight: m.in_flight.remove(i), ..m })
                    } else if m.next_seq == u64::MAX {
                        (r matches Err(e) && e.is_runtime("eval queue sequence exhausted"@)) && final(self).model() == m
                    } else {
                        (r matches Ok(b) && b) && final(self).model() == (QueueModel {
                            pending: m.pending.push(QueuedEval { seq: m.next_seq, deliveries: f.deliveries, eval: f.eval }),
                            in_flight: m.in_flight.remove(i),
                            blocked: m.blocked,
                            next_seq: (m.next_seq + 1) as u64,
                        })
                    }
                },
            },
    {
        proof {
            use_type_invariant(&*self);
            reveal_strlit("eval '");
            reveal_strlit("' is not in flight");
            reveal_strlit("eval queue sequence exhausted");
        }
        match Self::find_in_flight(&self.in_flight, id) {
            None => {
                let mut m = concat("eval '", id);
                m.append("' is not in flight");
                Err(Error::Runtime(m))
            },
            Some(i) => {
                let d = self.in_flight[i].deliveries;
                if d < MAX_DEQUEUE && self.next_seq == u64::MAX {
                    return Err(Error::Runtime(String::from_str("eval queue sequence exhausted")));
                }
                let (mut pending, mut in_flight, blocked, next_seq) = self.take();
                let ghost ps = pending@;
                let ghost fs = in_flight@;
                let InFlightEval { deliveries, eval } = in_flight.remove(i);
                assert forall|a: int| 0 <= a < in_flight@.len() implies (#[trigger] in_flight@[a]).deliveries <= MAX_DEQUEUE by {
                    let oa = if a < i { a } else { a + 1 };
                    assert(in_flight@[a] == fs[oa]);
                }
                if deliveries < MAX_DEQUEUE {
                    pending.push(QueuedEval { seq: next_seq, deliveries, eval });
                    assert forall|a: int, b: int| 0 <= a < pending@.len() && 0 <= b < pending@.len() && a != b
                        implies (#[trigger] pending@[a]).seq != (#[trigger] pending@[b]).seq by {
                        if a < ps.len() {
                            assert(pending@[a] == ps[a]);
                        }
                        if b < ps.len() {
                            assert(pending@[b] == ps[b]);
                        }
                    }
                    assert forall|a: int| 0 <= a < pending@.len() implies (#[trigger] pending@[a]).seq < next_seq + 1
                        && pending@[a].deliveries < MAX_DEQUEUE by {
                        if a < ps.len() {
                            assert(pending@[a] == ps[a]);
                        }
                    }
                    *self = EvalQueue { pending, in_flight, blocked, next_seq: next_seq + 1 };
                    Ok(true)
                } else {
                    *self = EvalQueue { pending, in_flight, blocked, next_seq };
                    Ok(false)
                }
            },
        }
    }

    /// Park an evaluation until capacity changes.
    ///
    /// # Errors
    ///
    /// Never fails; the `Result` keeps the signature of a shared queue.
    pub fn block(&mut self, eval: Evaluation) -> (r: Result<()>)
        ensures
            r is Ok,
            final(self).model() == (QueueModel { blocked: old(self).model().blocked.push(eval), ..old(self).model() }),
    {
        let (pending, in_flight, mut blocked, next_seq) = self.take();
        blocked.push(eval);
        *self = EvalQueue { pending, in_flight, blocked, next_seq };
        Ok(())
    }

    /// Move every blocked evaluation back to pending, in the order they were
    /// parked, each as a new insertion. Returns how many moved.
    ///
    /// # Errors
    ///
    /// Returns a `Runtime` error, leaving the queue unchanged, when the
    /// insertion counter cannot number them all.
    pub fn unblock_all(&mut self) -> (r: Result<usize>)
        ensures
            old(self).model().blocked.len() + old(self).model().next_seq <= u64::MAX ==> (r matches Ok(n)
                && n == old(self).model().blocked.len()) && final(self).model() == (QueueModel {
                pending: old(self).model().pending + requeued(old(self).model().blocked, old(self).model().next_seq),
                blocked: Seq::<Evaluation>::empty(),
                next_seq: (old(self).model().next_seq + old(self).model().blocked.len()) as u64,
                ..old(self).model()
            }),
            old(self).model().blocked.len() + old(self).model().next_seq > u64::MAX ==> (r matches Err(e)
                && e.is_runtime("eval queue sequence exhausted"@)) && final(self).model() == old(self).model(),
    {
        proof {
            use_type_invariant(&*self);
        }
        let count = self.blocked.len();
        if count as u64 > u64::MAX - self.next_seq {
            proof {
                reveal_strlit("eval queue sequence exhausted");
            }
            return Err(Error::Runtime(String::from_str("eval queue sequence exhausted")));
        }
        let (mut pending, in_flight, mut blocked, next_seq) = self.take();
        let ghost ps = pending@;
        let ghost bs = blocked@;
        let mut moved: Vec<Evaluation> = Vec::new();
        std::mem::swap(&mut moved, &mut blocked);
        let mut k: usize = 0;
        let mut seq = next_seq;
        // Drain front to back while keeping the order.
        let mut rest: Vec<Evaluation> = Vec::new();
        let mut j: usize = moved.len();
        while j > 0
            invariant
                moved@.len() == j,
                j <= bs.len(),
                moved@ == bs.subrange(0, j as int),
                rest@ == bs.subrange(j as int, bs.len() as int).reverse(),
            decreases j,
        {
            let e = moved.pop().unwrap();
            rest.push(e);
            assert(rest@ =~= bs.subrange(j - 1, bs.len() as int).reverse());
            j = j - 1;
        }
        while k < count
            invariant
                count == bs.len(),
                k <= count,
                rest@.len() == count - k,
                rest@ == bs.subrange(k as int, count as int).reverse(),
                seq == next_seq + k,
                next_seq + count <= u64::MAX,
                pending@ == ps + requeued(bs, next_seq).subrange(0, k as int),
            decreases count - k,
        {
            let e = rest.pop().unwrap();
            assert(e == bs[k as int]);
            pending.push(QueuedEval { seq, deliveries: 0, eval: e });
            assert(pending@ =~= ps + requeued(bs, next_seq).subrange(0, k + 1));
            assert(rest@ =~= bs.subrange(k + 1, count as int).reverse());
            seq = seq + 1;
            k = k + 1;
        }
        assert(requeued(bs, next_seq).subrange(0, count as int) =~= requeued(bs, next_seq));
        proof {
            let all = pending@;
            assert forall|a: int| 0 <= a < all.len() implies (#[trigger] all[a]).seq < seq && all[a].deliveries < MAX_DEQUEUE by {
                if a < ps.len() {
                    assert(all[a] == ps[a]);
                }
            }
            assert forall|a: int, b: int| 0 <= a < all.len() && 0 <= b < all.len() && a != b
                implies (#[trigger] all[a]).seq != (#[trigger] all[b]).seq by {
                if a < ps.len() {
                    assert(all[a] == ps[a]);
                }
                if b < ps.len() {
                    assert(all[b] == ps[b]);
                }
            }
        }
        assert(blocked@ =~= Seq::<Evaluation>::empty());
        *self = EvalQueue { pending, in_flight, blocked, next_seq: seq };
        Ok(count)
    }

    /// The number of evaluations currently pending.
    pub fn len(&self) -> (r: usize)
        ensures
            r == self.model().pending.len(),
    {
        self.pending.len()
    }

    /// Whether nothing is pending.
    pub fn is_empty(&self) -> (r: bool)
        ensures
            r == (self.model().pending.len() == 0),
    {
        self.pending.len() == 0
    }

    /// The number of parked evaluations.
    pub fn blocked_len(&self) -> (r: usize)
        ensures
            r == self.model().blocked.len(),
    {
        self.blocked.len()
    }

    /// The number of evaluations handed out and not yet acknowledged.
    pub fn in_flight_len(&self) -> (r: usize)
        ensures
            r == self.model().in_flight.len(),
    {
        self.in_flight.len()
    }
}

} // verus!
