use nomad_rs::eval::{EvalStatus, EvalTrigger, Evaluation};
use nomad_rs::eval_queue::{EvalQueue, MAX_DEQUEUE};
use nomad_rs::id::{EvalId, JobId};

fn pending_eval(id: &str, priority: i32) -> Evaluation {
    Evaluation {
        id: EvalId::from_str(id),
        job_id: JobId::from_str("redis"),
        priority,
        trigger: EvalTrigger::JobRegister,
        status: EvalStatus::Pending,
    }
}

fn next_id(q: &mut EvalQueue) -> Option<String> {
    q.dequeue().unwrap().map(|e| e.id.as_str().to_owned())
}

#[test]
fn new_queue_is_empty() {
    let q = EvalQueue::new();
    assert!(q.is_empty());
    assert_eq!(q.len(), 0);
}

#[test]
fn enqueue_increases_len() {
    let mut q = EvalQueue::new();
    q.enqueue(pending_eval("e1", 50)).unwrap();
    assert_eq!(q.len(), 1);
    assert!(!q.is_empty());
}

#[test]
fn dequeue_returns_items_in_priority_order() {
    let mut q = EvalQueue::new();
    q.enqueue(pending_eval("low", 10)).unwrap();
    q.enqueue(pending_eval("high", 80)).unwrap();
    q.enqueue(pending_eval("mid", 50)).unwrap();

    assert_eq!(next_id(&mut q).as_deref(), Some("high"));
    assert_eq!(next_id(&mut q).as_deref(), Some("mid"));
    assert_eq!(next_id(&mut q).as_deref(), Some("low"));
    assert!(q.dequeue().unwrap().is_none());
}

#[test]
fn equal_priority_is_fifo() {
    let mut q = EvalQueue::new();
    q.enqueue(pending_eval("first", 50)).unwrap();
    q.enqueue(pending_eval("second", 50)).unwrap();
    q.enqueue(pending_eval("third", 50)).unwrap();

    assert_eq!(next_id(&mut q).as_deref(), Some("first"));
    assert_eq!(next_id(&mut q).as_deref(), Some("second"));
    assert_eq!(next_id(&mut q).as_deref(), Some("third"));
}

#[test]
fn dequeue_empty_returns_none() {
    let mut q: EvalQueue = EvalQueue::new();
    assert!(q.dequeue().unwrap().is_none());
}

#[test]
fn drain_all_respects_priority() {
    let mut q = EvalQueue::new();
    q.enqueue(pending_eval("a", 30)).unwrap();
    q.enqueue(pending_eval("b", 99)).unwrap();
    q.enqueue(pending_eval("c", 1)).unwrap();
    q.enqueue(pending_eval("d", 50)).unwrap();

    let mut ids = Vec::new();
    while let Some(id) = next_id(&mut q) {
        ids.push(id);
    }
    assert_eq!(ids, &["b", "d", "a", "c"]);
}

#[test]
fn ack_removes_from_flight_and_unknown_ack_errors() {
    let mut q = EvalQueue::new();
    q.enqueue(pending_eval("e1", 50)).unwrap();
    next_id(&mut q);
    assert_eq!(q.in_flight_len(), 1);
    q.ack("e1").unwrap();
    assert_eq!(q.in_flight_len(), 0);
    assert_eq!(q.ack("e1").unwrap_err().message(), "runtime error: eval 'e1' is not in flight");
}

#[test]
fn nack_requeues_until_delivery_limit() {
    let mut q = EvalQueue::new();
    q.enqueue(pending_eval("e1", 50)).unwrap();
    let mut requeues = 0;
    for _ in 0..MAX_DEQUEUE {
        assert_eq!(next_id(&mut q).as_deref(), Some("e1"));
        if q.nack("e1").unwrap() {
            requeues += 1;
        }
    }
    assert_eq!(requeues, MAX_DEQUEUE - 1);
    assert!(q.is_empty());
    assert_eq!(q.in_flight_len(), 0);
}

#[test]
fn blocked_evals_return_on_unblock() {
    let mut q = EvalQueue::new();
    q.block(pending_eval("b1", 50)).unwrap();
    q.block(pending_eval("b2", 60)).unwrap();
    assert_eq!(q.blocked_len(), 2);
    assert!(q.is_empty());
    assert_eq!(q.unblock_all().unwrap(), 2);
    assert_eq!(q.blocked_len(), 0);
    assert_eq!(next_id(&mut q).as_deref(), Some("b2"));
}

#[test]
fn equal_priorities_keep_queue_order_among_higher_ones() {
    let mut q = EvalQueue::new();
    q.enqueue(pending_eval("a", 50)).unwrap();
    q.enqueue(pending_eval("b", 70)).unwrap();
    q.enqueue(pending_eval("c", 50)).unwrap();
    q.enqueue(pending_eval("d", 70)).unwrap();
    let mut ids = Vec::new();
    while let Some(id) = next_id(&mut q) {
        ids.push(id);
    }
    assert_eq!(ids, &["b", "d", "a", "c"]);
}
